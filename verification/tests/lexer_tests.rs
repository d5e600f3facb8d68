use seija::lex_string::{LexRead, LexString};

#[test]
fn next_tracks_lines_and_columns() {
    let mut lex = LexString::new("ab\ncd", 5);
    assert_eq!(lex.position().line, 1);
    assert_eq!(lex.position().column, 0);
    assert_eq!(lex.next(), Some('a'));
    assert_eq!((lex.position().line, lex.position().column), (1, 1));
    assert_eq!(lex.next(), Some('b'));
    assert_eq!((lex.position().line, lex.position().column), (1, 2));
    assert_eq!(lex.next(), Some('\n'));
    assert_eq!((lex.position().line, lex.position().column), (2, 0));
    assert_eq!(lex.next(), Some('c'));
    assert_eq!((lex.position().line, lex.position().column), (2, 1));
    assert_eq!(lex.next(), Some('d'));
    assert_eq!(lex.next(), None);
    assert_eq!((lex.position().line, lex.position().column), (2, 2));
}

#[test]
fn lookahead_does_not_consume() {
    let mut lex = LexString::new("xyz", 0);
    assert_eq!(lex.lookahead(0), None);
    assert_eq!(lex.lookahead(1), Some('x'));
    assert_eq!(lex.lookahead(3), Some('z'));
    assert_eq!(lex.lookahead(4), None);
    assert_eq!(lex.next(), Some('x'));
    assert_eq!(lex.lookahead(0), Some('x'));
    assert_eq!(lex.lookahead(1), Some('y'));
    assert_eq!(lex.lookahead(2), Some('z'));
    assert_eq!(lex.next(), Some('y'));
    assert_eq!(lex.position().column, 2);
}

#[test]
fn take_while_stops_at_delimiters() {
    let stops = vec!['(', ',', ')', ';'];
    let mut lex = LexString::new("foo  bar(x)", 5);
    assert_eq!(lex.take_while(&stops, true).as_deref(), Some("foo"));
    assert_eq!(lex.position().column, 3);
    lex.skip_whitespace();
    assert_eq!(lex.position().column, 5);
    assert_eq!(lex.take_while(&stops, true).as_deref(), Some("bar"));
    assert_eq!(lex.take_while(&stops, true), None);
    assert_eq!(lex.lookahead(1), Some('('));
    let semi = vec![';'];
    let mut lex2 = LexString::new(" tail name;rest", 5);
    assert_eq!(lex2.take_while(&semi, false).as_deref(), Some(" tail name"));
    assert_eq!(lex2.next(), Some(';'));
}

#[test]
fn skip_until_whitespace_stops_at_space() {
    let mut lex = LexString::new("comment text", 5);
    lex.skip_until_whitespace();
    assert_eq!(lex.lookahead(1), Some(' '));
    assert_eq!(lex.position().column, 7);
}

#[test]
fn unicode_white_space_is_skipped() {
    let mut lex = LexString::new("\u{3000}\u{a0}\t x", 5);
    lex.skip_whitespace();
    assert_eq!(lex.next(), Some('x'));
}

#[test]
fn reads_hand_out_the_text_in_order() {
    let mut lex = LexString::new("ab\nc", 2);
    let got = lex.replay(&vec![
        LexRead::Lookahead(3),
        LexRead::Next,
        LexRead::Lookahead(1),
        LexRead::Next,
        LexRead::Next,
        LexRead::Lookahead(0),
        LexRead::Next,
        LexRead::Next,
        LexRead::Next,
    ]);
    assert_eq!(got, vec![Some('a'), Some('b'), Some('\n'), Some('c'), None, None]);
    let p = lex.position();
    assert_eq!((p.line, p.column), (2, 1));
}
