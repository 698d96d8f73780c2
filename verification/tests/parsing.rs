use cipher::error::AppError;
use cipher::marker::Marker;
use cipher::parse::parse_source;
use cipher::scan::find_marker;
use cipher::segment::{Segment, Segments};
use cipher::serialize::combine;
use im::Vector;
use std::rc::Rc;

fn document(items: Vec<Segment>) -> Segments {
    let mut segments: Segments = Vector::new();
    for item in items {
        segments.push_back(Rc::new(item));
    }
    segments
}

fn parsed(source: &str) -> Segments {
    parse_source(source.to_string()).unwrap()
}

fn refused(source: &str) -> AppError {
    parse_source(source.to_string()).unwrap_err()
}

#[test]
fn empty_source_is_empty_document() {
    assert_eq!(parsed(""), document(vec![]));
}

#[test]
fn unmarked_text_is_one_segment() {
    assert_eq!(parsed("just text\n"), document(vec![Segment::Text("just text\n".to_string())]));
}

#[test]
fn balanced_secure_span() {
    assert_eq!(
        parsed("<<SECURE>>x<</SECURE>>"),
        document(vec![Segment::Secure("x".to_string())])
    );
}

#[test]
fn balanced_cipher_span() {
    assert_eq!(
        parsed("<<CIPHER>>eA==<</CIPHER>>"),
        document(vec![Segment::Cipher("eA==".to_string())])
    );
}

#[test]
fn mismatched_close_names_both_markers() {
    let e = refused("<<SECURE>>x<</CIPHER>>");
    assert_eq!(e.context(), "parsing");
    assert_eq!(e.detail(), "expected /SECURE but found /CIPHER");
}

#[test]
fn open_marker_inside_span_is_a_mismatch() {
    let e = refused("<<CIPHER>>a<<SECURE>>b<</SECURE>><</CIPHER>>");
    assert_eq!(e.context(), "parsing");
    assert_eq!(e.detail(), "expected /CIPHER but found SECURE");
}

#[test]
fn close_marker_outside_span_is_refused() {
    let e = refused("abc<</SECURE>>def");
    assert_eq!(e, AppError::from_str("parsing", "expected start tag but found /SECURE"));
    let e = refused("<</CIPHER>>");
    assert_eq!(e, AppError::from_str("parsing", "expected start tag but found /CIPHER"));
}

#[test]
fn unterminated_span_is_refused() {
    let e = refused("<<CIPHER>>abc");
    assert_eq!(e, AppError::from_str("parsing", "expected /CIPHER but found end of string"));
    let e = refused("text <<SECURE>>");
    assert_eq!(e, AppError::from_str("parsing", "expected /SECURE but found end of string"));
}

#[test]
fn first_violation_wins() {
    let e = refused("<</SECURE>><<CIPHER>>abc");
    assert_eq!(e.detail(), "expected start tag but found /SECURE");
}

#[test]
fn empty_spans_are_kept_and_empty_text_is_not() {
    assert_eq!(
        parsed("<<SECURE>><</SECURE>><<SECURE>>y<</SECURE>>"),
        document(vec![Segment::Secure("".to_string()), Segment::Secure("y".to_string())])
    );
    assert_eq!(
        parsed("<<CIPHER>><</CIPHER>>"),
        document(vec![Segment::Cipher("".to_string())])
    );
}

#[test]
fn content_is_taken_verbatim() {
    assert_eq!(
        parsed(" a\n<<SECURE>> \n\tb <</SECURE>>\n"),
        document(vec![
            Segment::Text(" a\n".to_string()),
            Segment::Secure(" \n\tb ".to_string()),
            Segment::Text("\n".to_string()),
        ])
    );
}

#[test]
fn near_markers_are_text() {
    let source = "<<SECURE> <SECURE>> <<secure>> <<SECURE >> << SECURE>> <</SECURE> <<CIPHER<<";
    assert_eq!(parsed(source), document(vec![Segment::Text(source.to_string())]));
}

#[test]
fn angle_brackets_before_a_marker_are_text() {
    assert_eq!(
        parsed("<<<<SECURE>>x<</SECURE>>>>"),
        document(vec![
            Segment::Text("<<".to_string()),
            Segment::Secure("x".to_string()),
            Segment::Text(">>".to_string()),
        ])
    );
    assert_eq!(
        parsed("<<CIPHER>><<<</CIPHER>>"),
        document(vec![Segment::Cipher("<<".to_string())])
    );
}

#[test]
fn text_beyond_ascii_is_cut_at_characters() {
    assert_eq!(
        parsed("h\u{e9}llo \u{1f512}<<SECURE>>\u{43a}\u{43b}\u{44e}\u{447}<</SECURE>>\u{65e5}\u{672c}<<CIPHER>>\u{df}<</CIPHER>>"),
        document(vec![
            Segment::Text("h\u{e9}llo \u{1f512}".to_string()),
            Segment::Secure("\u{43a}\u{43b}\u{44e}\u{447}".to_string()),
            Segment::Text("\u{65e5}\u{672c}".to_string()),
            Segment::Cipher("\u{df}".to_string()),
        ])
    );
}

#[test]
fn find_marker_gives_the_leftmost() {
    let (before, marker, after) = find_marker("ab<</CIPHER>>cd<<SECURE>>").unwrap();
    assert_eq!(before, "ab");
    assert_eq!(marker, Marker::CloseCipher);
    assert_eq!(after, "cd<<SECURE>>");
    assert_eq!(find_marker("<<CIPHER>>"), Some(("", Marker::OpenCipher, "")));
    assert_eq!(find_marker("no marker <<HERE>>"), None);
    assert_eq!(find_marker(""), None);
}

#[test]
fn markers_have_their_texts_and_names() {
    assert_eq!(Marker::OpenSecure.as_str(), "<<SECURE>>");
    assert_eq!(Marker::CloseSecure.as_str(), "<</SECURE>>");
    assert_eq!(Marker::OpenCipher.as_str(), "<<CIPHER>>");
    assert_eq!(Marker::CloseCipher.as_str(), "<</CIPHER>>");
    assert_eq!(Marker::OpenSecure.name_str(), "SECURE");
    assert_eq!(Marker::CloseSecure.name_str(), "/SECURE");
    assert_eq!(Marker::OpenCipher.name_str(), "CIPHER");
    assert_eq!(Marker::CloseCipher.name_str(), "/CIPHER");
}

#[test]
fn parsed_document_is_written_as_the_text() {
    let sources = [
        "",
        "plain",
        "<<SECURE>>a<</SECURE>>",
        "x<<SECURE>><</SECURE>><<CIPHER>>YQ==<</CIPHER>>y",
        "<< <<CIPHER>>\u{e9}<\n<</CIPHER>> >>",
    ];
    for source in sources {
        assert_eq!(combine(parsed(source)).unwrap(), source);
    }
}

#[test]
fn written_document_is_parsed_as_the_document() {
    let documents = [
        document(vec![]),
        document(vec![Segment::Text("a".to_string())]),
        document(vec![Segment::Secure("".to_string()), Segment::Cipher("".to_string())]),
        document(vec![
            Segment::Text("<".to_string()),
            Segment::Secure("<<SECURE".to_string()),
            Segment::Text(">>".to_string()),
            Segment::Cipher("/CIPHER>>".to_string()),
            Segment::Text("<</".to_string()),
        ]),
    ];
    for d in documents {
        let text = combine(d.clone()).unwrap();
        assert_eq!(parse_source(text).unwrap(), d);
    }
}

#[test]
fn adjacent_and_empty_text_does_not_come_back() {
    let d = document(vec![Segment::Text("a".to_string()), Segment::Text("b".to_string())]);
    let text = combine(d).unwrap();
    assert_eq!(parsed(&text), document(vec![Segment::Text("ab".to_string())]));
    let d = document(vec![Segment::Text("".to_string())]);
    let text = combine(d).unwrap();
    assert_eq!(parsed(&text), document(vec![]));
}
