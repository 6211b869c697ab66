//! Styled text, wrapped.

use kot::screen::{drawn_rows, or_bare, read_colours, wrap_colours, wrap_text, Look, Run, Styled};

fn raw(s: &str) -> Vec<Vec<Run>> {
    s.split('\n').map(|l| if l.is_empty() { vec![] } else { vec![Run { text: l.into(), style: 0 }] }).collect()
}

fn rows(t: &[Vec<Run>]) -> Vec<String> {
    t.iter().map(|l| l.iter().map(|r| r.text.as_str()).collect()).collect()
}

fn width(s: &str) -> usize {
    ratatui::text::Span::raw(s).width()
}

#[test]
fn long_lines_wrap_at_words_and_nothing_is_lost() {
    let t = wrap_text(&raw("Rebuilt from scratch after the upgrade/restart; all four LocalTask steps green"), 30);
    let r = rows(&t);
    assert_eq!(r, vec!["Rebuilt from scratch after the", "upgrade/restart; all four", "LocalTask steps green"]);
    assert!(r.iter().all(|l| width(l) <= 30));
}

#[test]
fn a_word_wider_than_the_line_is_broken_and_short_lines_are_untouched() {
    assert_eq!(rows(&wrap_text(&raw("abcdefghij"), 4)), vec!["abcd", "efgh", "ij"]);
    assert_eq!(rows(&wrap_text(&raw("short\n\nnext"), 40)), vec!["short", "", "next"]);
}

#[test]
fn wide_characters_count_as_two() {
    // 喵 is two cells: three of them fill six.
    assert_eq!(rows(&wrap_text(&raw("喵喵喵喵"), 6)), vec!["喵喵喵", "喵"]);
}

#[test]
fn styles_survive_the_break() {
    let red: usize = 1;
    let t = wrap_text(&vec![vec![Run { text: "aaa ".into(), style: 0 }, Run { text: "bbb ccc".into(), style: red }]], 7);
    assert_eq!(rows(&t), vec!["aaa bbb", "ccc"]);
    assert_eq!(t[1][0].style, red);
    assert_eq!(t[0][1].style, red);
}

#[test]
fn only_spaces_are_lost_at_a_break() {
    let text = "one two  three 四 five sixseveneight";
    for cols in 2..30 {
        let got: String = rows(&wrap_text(&raw(text), cols)).concat();
        assert_eq!(got.replace(' ', ""), text.replace(' ', ""), "at {cols}");
    }
}

#[test]
fn every_row_fits() {
    for cols in 2..30u16 {
        for row in rows(&wrap_text(&raw("one two  three 四四四 five sixseveneight"), cols)) {
            assert!(width(&row) <= cols as usize, "{row:?} at {cols}");
        }
    }
}

fn bare() -> Look {
    Look { fg: None, bg: None, underline: None, add: 0, sub: 0 }
}

fn texts(t: &[Vec<Styled>]) -> Vec<Vec<&str>> {
    t.iter().map(|l| l.iter().map(|r| r.text.as_str()).collect()).collect()
}

#[test]
fn colour_codes_become_looks() {
    let t = read_colours("\u{1b}[31mred\u{1b}[0m plain\n\u{1b}[1;38;2;1;2;3mbold");
    assert_eq!(texts(&t), vec![vec!["red", " plain"], vec!["bold"]]);
    assert_eq!(t[0][0].look.fg.as_deref(), Some("Red"));
    assert_eq!(t[0][1].look.fg.as_deref(), Some("Reset"));
    assert_eq!(t[1][0].look.fg.as_deref(), Some("#010203"));
    assert_eq!(t[1][0].look.add, ratatui::style::Modifier::BOLD.bits());
    // The names are ratatui's own.
    assert_eq!("Red".parse(), Ok(ratatui::style::Color::Red));
    assert_eq!("#010203".parse(), Ok(ratatui::style::Color::Rgb(1, 2, 3)));
}

#[test]
fn coloured_text_is_wrapped_in_its_looks() {
    let t = drawn_rows("aaa \u{1b}[32mbbb ccc", 7);
    assert_eq!(texts(&t), vec![vec!["aaa ", "bbb"], vec!["ccc"]]);
    assert_eq!(t[0][0].look, bare());
    assert_eq!(t[0][1].look.fg.as_deref(), Some("Green"));
    assert_eq!(t[1][0].look, t[0][1].look);
    let run = |text: &str, add: u16| Styled { text: text.into(), look: Look { add, ..bare() } };
    let t = wrap_colours(&vec![vec![run("one", 1), run(" two", 1), run(" three", 2)]], 80);
    assert_eq!(texts(&t), vec![vec!["one two", " three"]], "neighbours of one look go together");
}

#[test]
fn what_cannot_be_read_stands_as_it_is() {
    let t = or_bare("one\n\ntwo", None);
    assert_eq!(texts(&t), vec![vec!["one"], vec![], vec!["two"]]);
    assert_eq!(t[0][0].look, bare());
    assert_eq!(texts(&or_bare("", None)), vec![Vec::<&str>::new()]);
    assert_eq!(texts(&or_bare("x", Some(vec![]))), Vec::<Vec<&str>>::new());
}
