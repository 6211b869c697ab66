//! Markdown for the terminal: the subset cats actually write, rendered as
//! coloured lines.

use crate::text;
use crate::ui;
use crate::ui::Skin;
use vstd::prelude::*;
use vstd::string::*;

verus! {

// ---------------------------------------------------------------------
// Inline markup
// ---------------------------------------------------------------------

/// Plain text gathered so far.
pub open spec fn flushed(k: Skin, run: Seq<char>) -> Seq<char> {
    if run.len() == 0 {
        ""@
    } else {
        ui::plained(k, run)
    }
}

/// Where the code ends that begins with the backtick at `i`.
pub open spec fn code_end(s: Seq<char>, i: nat) -> Option<nat> {
    if text::occurs_at(s, "`"@, i as int) {
        text::find_from(s, "`"@, i + 1)
    } else {
        None
    }
}

/// Where the bold text ends that begins with the doubled `mark` at `i`; it is
/// not empty.
pub open spec fn marked_end(s: Seq<char>, mark: Seq<char>, i: nat) -> Option<nat> {
    if text::occurs_at(s, mark, i as int) {
        match text::find_from(s, mark, i + 2) {
            Some(e) => if e > i + 2 {
                Some(e)
            } else {
                None
            },
            None => None,
        }
    } else {
        None
    }
}

/// Where the bold text that begins at `i` ends, with either mark.
pub open spec fn bold_end(s: Seq<char>, i: nat) -> Option<nat> {
    if text::occurs_at(s, "**"@, i as int) {
        marked_end(s, "**"@, i)
    } else {
        marked_end(s, "__"@, i)
    }
}

/// Where the text of the link that begins at `i` ends, and where its address
/// does.
pub open spec fn link_ends(s: Seq<char>, i: nat) -> Option<(nat, nat)> {
    if text::occurs_at(s, "["@, i as int) {
        match text::find_from(s, "]("@, i + 1) {
            Some(close) => match text::find_from(s, ")"@, close + 2) {
                Some(end) => Some((close, end)),
                None => None,
            },
            None => None,
        }
    } else {
        None
    }
}

/// What stands from `i` on, the plain text `run` having been gathered before
/// it. Code comes before bold text, bold text before links; a mark without its
/// partner is left as written.
pub open spec fn inlined(k: Skin, s: Seq<char>, i: nat, run: Seq<char>) -> Seq<char>
    decreases s.len(), s.len() - i,
{
    proof {
        lemma_ends(s, i);
    }
    if i >= s.len() {
        flushed(k, run)
    } else if let Some(e) = code_end(s, i) {
        flushed(k, run) + ui::painted(k, k.theme.warm, s.subrange(i as int + 1, e as int)) + inlined(
            k,
            s,
            e + 1,
            ""@,
        )
    } else if let Some(e) = bold_end(s, i) {
        flushed(k, run) + ui::bolded(
            k,
            k.theme.paper,
            ui::stripped(inlined(k, s.subrange(i as int + 2, e as int), 0, ""@)),
        ) + inlined(k, s, e + 2, ""@)
    } else if let Some((close, end)) = link_ends(s, i) {
        flushed(k, run) + (ui::painted(k, k.theme.accent, s.subrange(i as int + 1, close as int)) + " "@
            + ui::dimmed(k, "("@ + s.subrange(close as int + 2, end as int) + ")"@)) + inlined(
            k,
            s,
            end + 1,
            ""@,
        )
    } else {
        inlined(k, s, i + 1, run.push(s[i as int]))
    }
}

/// Each mark's partner stands behind it.
pub proof fn lemma_ends(s: Seq<char>, i: nat)
    ensures
        code_end(s, i) matches Some(e) ==> i < e < s.len(),
        bold_end(s, i) matches Some(e) ==> i + 2 < e && e + 2 <= s.len(),
        link_ends(s, i) matches Some((close, end)) ==> i < close && close + 2 <= end < s.len(),
{
    reveal_strlit("`");
    reveal_strlit("**");
    reveal_strlit("__");
    reveal_strlit("[");
    reveal_strlit("](");
    reveal_strlit(")");
    text::lemma_find_from(s, "`"@, i + 1);
    text::lemma_find_from(s, "**"@, i + 2);
    text::lemma_find_from(s, "__"@, i + 2);
    text::lemma_find_from(s, "]("@, i + 1);
    match text::find_from(s, "]("@, i + 1) {
        Some(close) => {
            text::lemma_find_from(s, ")"@, close + 2);
        },
        None => {},
    }
}

proof fn lemma_moved(a: Seq<char>, b: Seq<char>, c: Seq<char>, d: Seq<char>)
    ensures
        a + (b + c + d) == a + b + c + d,
{
    assert(a + (b + c + d) =~= a + b + c + d);
}

fn code_at(v: &Vec<char>, i: usize) -> (r: Option<usize>)
    requires
        i < v.len(),
    ensures
        match r {
            Some(e) => code_end(v@, i as nat) == Some(e as nat),
            None => code_end(v@, i as nat) is None,
        },
{
    let tick = text::chars_of("`");
    if text::stands_at(v, &tick, i) {
        text::find_at(v, &tick, i + 1)
    } else {
        None
    }
}

fn marked_at(v: &Vec<char>, mark: &str, i: usize) -> (r: Option<usize>)
    requires
        i + 2 <= v.len(),
    ensures
        match r {
            Some(e) => marked_end(v@, mark@, i as nat) == Some(e as nat),
            None => marked_end(v@, mark@, i as nat) is None,
        },
{
    let m = text::chars_of(mark);
    if text::stands_at(v, &m, i) {
        match text::find_at(v, &m, i + 2) {
            Some(e) => if e > i + 2 {
                Some(e)
            } else {
                None
            },
            None => None,
        }
    } else {
        None
    }
}

fn bold_at(v: &Vec<char>, i: usize) -> (r: Option<usize>)
    requires
        i < v.len(),
    ensures
        match r {
            Some(e) => bold_end(v@, i as nat) == Some(e as nat),
            None => bold_end(v@, i as nat) is None,
        },
{
    proof {
        reveal_strlit("**");
        reveal_strlit("__");
    }
    let star = text::chars_of("**");
    let line = text::chars_of("__");
    if text::stands_at(v, &star, i) {
        marked_at(v, "**", i)
    } else if text::stands_at(v, &line, i) {
        marked_at(v, "__", i)
    } else {
        None
    }
}

fn link_at(v: &Vec<char>, i: usize) -> (r: Option<(usize, usize)>)
    requires
        i < v.len(),
    ensures
        match r {
            Some((c, e)) => link_ends(v@, i as nat) == Some((c as nat, e as nat)),
            None => link_ends(v@, i as nat) is None,
        },
{
    proof {
        reveal_strlit("](");
    }
    let open = text::chars_of("[");
    let middle = text::chars_of("](");
    let shut = text::chars_of(")");
    if text::stands_at(v, &open, i) {
        match text::find_at(v, &middle, i + 1) {
            Some(close) => match text::find_at(v, &shut, close + 2) {
                Some(end) => Some((close, end)),
                None => None,
            },
            None => None,
        }
    } else {
        None
    }
}

fn flush(k: &Skin, run: &str) -> (r: String)
    ensures
        r@ == flushed(*k, run@),
{
    if run.is_empty() {
        "".to_owned()
    } else {
        ui::plain(k, run)
    }
}

/// Inline markdown in one line: code (nothing inside it is markup), bold text,
/// and links: the text, then the address, dim.
pub fn inline(k: &Skin, s: &str) -> (r: String)
    ensures
        r@ == inlined(*k, s@, 0, ""@),
    decreases s@.len(),
{
    let v = text::chars_of(s);
    let mut out = "".to_owned();
    let mut run = "".to_owned();
    let mut i: usize = 0;
    proof {
        reveal_strlit("");
        assert(""@ + inlined(*k, s@, 0, ""@) =~= inlined(*k, s@, 0, ""@));
    }
    while i < v.len()
        invariant
            i <= v.len(),
            v@ == s@,
            out@ + inlined(*k, s@, i as nat, run@) == inlined(*k, s@, 0, ""@),
        decreases v.len() - i,
    {
        let ghost was = out@;
        proof {
            lemma_ends(v@, i as nat);
        }
        if let Some(e) = code_at(&v, i) {
            let code = ui::paint(k, k.theme.warm, text::slice_text(&v, i + 1, e).as_str());
            let front = flush(k, run.as_str());
            out.append(front.as_str());
            out.append(code.as_str());
            proof {
                lemma_moved(was, front@, code@, inlined(*k, s@, (e + 1) as nat, ""@));
            }
            run = "".to_owned();
            i = e + 1;
        } else if let Some(e) = bold_at(&v, i) {
            let inner = text::slice_text(&v, i + 2, e);
            let strong = ui::bold(
                k,
                k.theme.paper,
                ui::strip_ansi(inline(k, inner.as_str()).as_str()).as_str(),
            );
            let front = flush(k, run.as_str());
            out.append(front.as_str());
            out.append(strong.as_str());
            proof {
                lemma_moved(was, front@, strong@, inlined(*k, s@, (e + 2) as nat, ""@));
            }
            run = "".to_owned();
            i = e + 2;
        } else if let Some((close, end)) = link_at(&v, i) {
            let label = ui::paint(k, k.theme.accent, text::slice_text(&v, i + 1, close).as_str());
            let url = String::from_str("(").concat(
                text::slice_text(&v, close + 2, end).as_str(),
            ).concat(")");
            let link = label.concat(" ").concat(ui::dim(k, url.as_str()).as_str());
            let front = flush(k, run.as_str());
            out.append(front.as_str());
            out.append(link.as_str());
            proof {
                lemma_moved(was, front@, link@, inlined(*k, s@, (end + 1) as nat, ""@));
            }
            run = "".to_owned();
            i = end + 1;
        } else {
            run.push(v[i]);
            i = i + 1;
        }
    }
    out.concat(flush(k, run.as_str()).as_str())
}

/// A mark without its partner is left as written: where nothing in `s` is
/// code, bold or a link, all of it is plain text.
pub proof fn unmatched_marks_stay(k: Skin, s: Seq<char>)
    requires
        forall|i: nat|
            i < s.len() ==> #[trigger] code_end(s, i) is None && bold_end(s, i) is None
                && link_ends(s, i) is None,
    ensures
        inlined(k, s, 0, ""@) == flushed(k, s),
{
    reveal_strlit("");
    lemma_unmatched(k, s, 0, ""@);
    assert(""@ + s.skip(0) =~= s);
}

proof fn lemma_unmatched(k: Skin, s: Seq<char>, i: nat, run: Seq<char>)
    requires
        i <= s.len(),
        forall|i: nat|
            i < s.len() ==> #[trigger] code_end(s, i) is None && bold_end(s, i) is None
                && link_ends(s, i) is None,
    ensures
        inlined(k, s, i, run) == flushed(k, run + s.skip(i as int)),
    decreases s.len() - i,
{
    if i < s.len() {
        assert(code_end(s, i) is None);
        lemma_unmatched(k, s, i + 1, run.push(s[i as int]));
        assert(run.push(s[i as int]) + s.skip(i as int + 1) =~= run + s.skip(i as int));
    } else {
        assert(run + s.skip(i as int) =~= run);
    }
}

// ---------------------------------------------------------------------
// Lines
// ---------------------------------------------------------------------

/// How many copies of `c` a text begins with.
pub open spec fn run_of(s: Seq<char>, c: char) -> nat {
    (s.len() - text::without_leading(s, c).len()) as nat
}

/// How many digits a text begins with.
pub open spec fn digits_of(s: Seq<char>) -> nat
    decreases s.len(),
{
    if s.len() > 0 && text::is_digit(s[0]) {
        1 + digits_of(s.skip(1))
    } else {
        0
    }
}

/// A line of nothing but dashes, stars, underscores and spaces.
pub open spec fn only_marks(s: Seq<char>) -> bool {
    forall|i: int|
        0 <= i < s.len() ==> {
            let c = #[trigger] s[i];
            c == '-' || c == '*' || c == '_' || c == ' '
        }
}

/// How many characters of `s` are not blank.
pub open spec fn ink_count(s: Seq<char>) -> nat
    decreases s.len(),
{
    if s.len() == 0 {
        0
    } else {
        ink_count(s.drop_last()) + if text::white(s.last()) {
            0nat
        } else {
            1nat
        }
    }
}

/// A line that draws a rule.
pub open spec fn is_rule(s: Seq<char>) -> bool {
    only_marks(s) && ink_count(s) >= 3
}

/// What comes after the marker of a list item.
pub open spec fn item_of(s: Seq<char>) -> Option<Seq<char>> {
    match text::after_prefix(s, "- "@) {
        Some(r) => Some(r),
        None => match text::after_prefix(s, "* "@) {
            Some(r) => Some(r),
            None => text::after_prefix(s, "+ "@),
        },
    }
}

/// A list item's bullet, or its box where it has one, and its text.
pub open spec fn boxed(k: Skin, item: Seq<char>) -> (Seq<char>, Seq<char>) {
    match text::after_prefix(item, "[ ] "@) {
        Some(rest) => (ui::dimmed(k, "☐"@), rest),
        None => match text::after_prefix(item, "[x] "@) {
            Some(rest) => (ui::painted(k, k.theme.progress, "☑"@), rest),
            None => match text::after_prefix(item, "[X] "@) {
                Some(rest) => (ui::painted(k, k.theme.progress, "☑"@), rest),
                None => (ui::painted(k, k.theme.accent, "•"@), item),
            },
        },
    }
}

/// A heading's level: one to six hashes and a space.
pub open spec fn heading_of(s: Seq<char>) -> Option<nat> {
    let n = run_of(s, '#');
    if 1 <= n <= 6 && text::starts(text::without_leading(s, '#'), " "@) {
        Some(n)
    } else {
        None
    }
}

/// A line outside any code block, its trailing white space gone.
pub open spec fn line_text(k: Skin, line: Seq<char>) -> Seq<char> {
    let t = text::trimmed_start(line);
    let pad = ui::spaces(2 + ui::room(text::size(line) as nat, text::size(t) as nat));
    let n = digits_of(t);
    if t.len() == 0 {
        ""@
    } else if let Some(level) = heading_of(t) {
        let words = ui::stripped(
            inlined(k, text::trimmed(text::without_leading(t, '#')), 0, ""@),
        );
        "  "@ + ui::bolded(
            k,
            if level == 1 {
                k.theme.accent
            } else if level == 2 {
                k.theme.paper
            } else {
                k.theme.ink
            },
            words,
        )
    } else if is_rule(t) {
        let room = ui::room(k.width as nat, 4);
        "  "@ + ui::ruled(
            k,
            if room < 60 {
                room
            } else {
                60
            },
        )
    } else if let Some(q) = text::after_prefix(t, ">"@) {
        "  "@ + ui::painted(k, k.theme.ink, "▌"@) + " "@ + ui::dimmed(
            k,
            ui::stripped(inlined(k, text::trimmed_start(q), 0, ""@)),
        )
    } else if let Some(item) = item_of(t) {
        let (mark, rest) = boxed(k, item);
        pad + mark + " "@ + inlined(k, rest, 0, ""@)
    } else if n > 0 && text::starts(t.skip(n as int), ". "@) {
        pad + ui::painted(k, k.theme.accent, t.take(n as int + 1)) + " "@ + inlined(
            k,
            t.skip(n as int + 2),
            0,
            ""@,
        )
    } else {
        pad + inlined(k, t, 0, ""@)
    }
}

/// The fence a line opens.
pub open spec fn fence_of(t: Seq<char>) -> Option<Seq<char>> {
    if text::starts(t, "```"@) {
        Some("```"@)
    } else if text::starts(t, "~~~"@) {
        Some("~~~"@)
    } else {
        None
    }
}

/// One more line: its row, and the fence of the code block that is open after
/// it.
pub open spec fn line_step(k: Skin, fence: Option<Seq<char>>, raw: Seq<char>) -> (
    Seq<char>,
    Option<Seq<char>>,
) {
    let line = text::trimmed_end(raw);
    let t = text::trimmed_start(line);
    match fence {
        Some(marker) => if text::starts(t, marker) {
            ("    "@ + ui::fainted(k, "└"@), None)
        } else {
            (
                "    "@ + ui::fainted(k, "│"@) + " "@ + ui::painted(
                    k,
                    k.theme.ink,
                    text::replaced(line, "\t"@, "    "@, 0),
                ),
                fence,
            )
        },
        None => match fence_of(t) {
            Some(marker) => {
                let lang = text::trimmed(t.skip(3));
                (
                    "    "@ + ui::fainted(k, "┌"@) + (if lang.len() == 0 {
                        ""@
                    } else {
                        " "@ + ui::dimmed(k, lang)
                    }),
                    Some(marker),
                )
            },
            None => (line_text(k, line), None),
        },
    }
}

/// The rows of some lines, and the fence that is still open.
pub open spec fn rows_of(k: Skin, lines: Seq<Seq<char>>) -> (Seq<Seq<char>>, Option<Seq<char>>)
    decreases lines.len(),
{
    if lines.len() == 0 {
        (seq![], None)
    } else {
        let (rows, fence) = rows_of(k, lines.drop_last());
        let (row, next) = line_step(k, fence, lines.last());
        (rows.push(row), next)
    }
}

/// A text rendered; a code block left open is closed at its end.
pub open spec fn rendered(k: Skin, src: Seq<char>) -> Seq<char> {
    let (rows, fence) = rows_of(k, text::lines(src));
    text::joined(
        if fence is Some {
            rows.push("    "@ + ui::fainted(k, "└"@))
        } else {
            rows
        },
        "\n"@,
    )
}

fn digit_run(v: &Vec<char>) -> (n: usize)
    ensures
        n == digits_of(v@),
        n <= v@.len(),
{
    let mut i: usize = 0;
    assert(v@.skip(0) =~= v@);
    while i < v.len() && '0' <= v[i] && v[i] <= '9'
        invariant
            i <= v@.len(),
            digits_of(v@) == i + digits_of(v@.skip(i as int)),
        decreases v.len() - i,
    {
        assert(v@.skip(i as int)[0] == v@[i as int]);
        assert(v@.skip(i as int).skip(1) =~= v@.skip(i + 1));
        i = i + 1;
    }
    proof {
        if i < v@.len() {
            assert(v@.skip(i as int)[0] == v@[i as int]);
        }
    }
    i
}

fn draws_rule(v: &Vec<char>) -> (r: bool)
    ensures
        r == is_rule(v@),
{
    let mut n: usize = 0;
    let mut i: usize = 0;
    assert(v@.take(0) =~= Seq::<char>::empty());
    while i < v.len()
        invariant
            i <= v@.len(),
            n <= i,
            n == ink_count(v@.take(i as int)),
            forall|j: int|
                0 <= j < i ==> {
                    let c = #[trigger] v@[j];
                    c == '-' || c == '*' || c == '_' || c == ' '
                },
        decreases v.len() - i,
    {
        let c = v[i];
        if !(c == '-' || c == '*' || c == '_' || c == ' ') {
            assert(!only_marks(v@)) by {
                assert(v@[i as int] == c);
            }
            return false;
        }
        assert(v@.take(i + 1).drop_last() =~= v@.take(i as int));
        if !text::is_white(c) {
            n = n + 1;
        }
        i = i + 1;
    }
    assert(v@.take(i as int) =~= v@);
    n >= 3
}

fn item_after(t: &str) -> (r: Option<String>)
    ensures
        text::text_view(r) == item_of(t@),
{
    match text::strip_prefix(t, "- ") {
        Some(r) => Some(r),
        None => match text::strip_prefix(t, "* ") {
            Some(r) => Some(r),
            None => text::strip_prefix(t, "+ "),
        },
    }
}

fn box_of(k: &Skin, item: &str) -> (r: (String, String))
    ensures
        (r.0@, r.1@) == boxed(*k, item@),
{
    match text::strip_prefix(item, "[ ] ") {
        Some(rest) => (ui::dim(k, "☐"), rest),
        None => match text::strip_prefix(item, "[x] ") {
            Some(rest) => (ui::paint(k, k.theme.progress, "☑"), rest),
            None => match text::strip_prefix(item, "[X] ") {
                Some(rest) => (ui::paint(k, k.theme.progress, "☑"), rest),
                None => (ui::paint(k, k.theme.accent, "•"), item.to_owned()),
            },
        },
    }
}

proof fn lemma_without_leading(s: Seq<char>, c: char)
    ensures
        text::without_leading(s, c).len() <= s.len(),
    decreases s.len(),
{
    if s.len() > 0 && s[0] == c {
        lemma_without_leading(s.skip(1), c);
    }
}

fn line_row(k: &Skin, line: &str) -> (r: String)
    requires
        ui::ramp_fits(*k),
    ensures
        r@ == line_text(*k, line@),
{
    let t_text = text::trim_start(line);
    let t = t_text.as_str();
    if t.is_empty() {
        return "".to_owned();
    }
    let rest = text::trim_leading(t, '#');
    proof {
        lemma_without_leading(t@, '#');
    }
    let level: usize = t.unicode_len() - rest.as_str().unicode_len();
    if 1 <= level && level <= 6 && text::starts_with(rest.as_str(), " ") {
        let words = ui::strip_ansi(
            inline(k, text::trim(rest.as_str()).as_str()).as_str(),
        );
        let c = if level == 1 {
            k.theme.accent
        } else if level == 2 {
            k.theme.paper
        } else {
            k.theme.ink
        };
        return String::from_str("  ").concat(ui::bold(k, c, words.as_str()).as_str());
    }
    let v = text::chars_of(t);
    if draws_rule(&v) {
        let room: usize = ui::left(k.width, 4);
        let n: usize = if room < 60 {
            room
        } else {
            60
        };
        return String::from_str("  ").concat(ui::rule(k, n).as_str());
    }
    if let Some(q) = text::strip_prefix(t, ">") {
        let words = ui::strip_ansi(
            inline(k, text::trim_start(q.as_str()).as_str()).as_str(),
        );
        return String::from_str("  ").concat(ui::paint(k, k.theme.ink, "▌").as_str()).concat(
            " ",
        ).concat(ui::dim(k, words.as_str()).as_str());
    }
    let indent: usize = ui::left(line.len(), t.len() as u128);
    let pad = ui::space(2 + indent as u128);
    if let Some(item) = item_after(t) {
        let (mark, words) = box_of(k, item.as_str());
        return pad.concat(mark.as_str()).concat(" ").concat(inline(k, words.as_str()).as_str());
    }
    let n: usize = digit_run(&v);
    if n > 0 {
        let after = text::slice_text(&v, n, v.len());
        assert(after@ =~= t@.skip(n as int));
        if text::starts_with(after.as_str(), ". ") {
            proof {
                reveal_strlit(". ");
            }
            let head = text::slice_text(&v, 0, n + 1);
            let words = text::slice_text(&v, n + 2, v.len());
            assert(head@ =~= t@.take(n + 1));
            assert(words@ =~= t@.skip(n + 2));
            return pad.concat(ui::paint(k, k.theme.accent, head.as_str()).as_str()).concat(
                " ",
            ).concat(inline(k, words.as_str()).as_str());
        }
    }
    pad.concat(inline(k, t).as_str())
}

fn fence_at(t: &str) -> (r: Option<String>)
    ensures
        text::text_view(r) == fence_of(t@),
{
    if text::starts_with(t, "```") {
        Some("```".to_owned())
    } else if text::starts_with(t, "~~~") {
        Some("~~~".to_owned())
    } else {
        None
    }
}

fn take_line(k: &Skin, fence: Option<String>, raw: &str) -> (r: (String, Option<String>))
    requires
        ui::ramp_fits(*k),
    ensures
        (r.0@, text::text_view(r.1)) == line_step(*k, text::text_view(fence), raw@),
{
    let line_text = text::trim_end(raw);
    let line = line_text.as_str();
    let t_text = text::trim_start(line);
    let t = t_text.as_str();
    match fence {
        Some(marker) => if text::starts_with(t, marker.as_str()) {
            (String::from_str("    ").concat(ui::faint(k, "└").as_str()), None)
        } else {
            proof {
                reveal_strlit("\t");
            }
            let flat = text::replace(line, "\t", "    ");
            let row = String::from_str("    ").concat(ui::faint(k, "│").as_str()).concat(
                " ",
            ).concat(ui::paint(k, k.theme.ink, flat.as_str()).as_str());
            (row, Some(marker))
        },
        None => match fence_at(t) {
            Some(marker) => {
                proof {
                    reveal_strlit("```");
                    reveal_strlit("~~~");
                }
                let v = text::chars_of(t);
                let after = text::slice_text(&v, 3, v.len());
                assert(after@ =~= t@.skip(3));
                let lang = text::trim(after.as_str());
                let tail = if lang.as_str().is_empty() {
                    "".to_owned()
                } else {
                    String::from_str(" ").concat(ui::dim(k, lang.as_str()).as_str())
                };
                let row = String::from_str("    ").concat(ui::faint(k, "┌").as_str()).concat(
                    tail.as_str(),
                );
                (row, Some(marker))
            },
            None => (line_row(k, line), None),
        },
    }
}

/// `src` rendered for the terminal, indented two cells like the log.
pub fn markdown(k: &Skin, src: &str) -> (r: String)
    requires
        ui::ramp_fits(*k),
    ensures
        r@ == rendered(*k, src@),
{
    let lines = text::lines_of(src);
    let ghost all = text::texts(lines@);
    let mut out = text::none();
    let mut fence: Option<String> = None;
    let mut i: usize = 0;
    assert(all.take(0) =~= Seq::<Seq<char>>::empty());
    assert(text::texts(out@) =~= Seq::<Seq<char>>::empty());
    while i < lines.len()
        invariant
            i <= lines.len(),
            ui::ramp_fits(*k),
            all == text::texts(lines@),
            rows_of(*k, all.take(i as int)) == (text::texts(out@), text::text_view(fence)),
        decreases lines.len() - i,
    {
        assert(all.take(i + 1).drop_last() =~= all.take(i as int));
        assert(all.take(i + 1).last() == lines@[i as int]@);
        let (row, next) = take_line(k, fence, lines[i].as_str());
        text::put(&mut out, row.as_str());
        fence = next;
        i = i + 1;
    }
    assert(all.take(i as int) =~= all);
    if fence.is_some() {
        text::put(&mut out, String::from_str("    ").concat(ui::faint(k, "└").as_str()).as_str());
    }
    text::join(&out, "\n")
}

/// What stands in a code block is left as written: between a fence and its
/// partner a line comes out behind a gutter, with nothing but its tabs and its
/// trailing white space changed.
pub proof fn code_is_left_alone(k: Skin, marker: Seq<char>, raw: Seq<char>)
    requires
        !text::starts(text::trimmed_start(text::trimmed_end(raw)), marker),
    ensures
        line_step(k, Some(marker), raw) == (
            "    "@ + ui::fainted(k, "│"@) + " "@ + ui::painted(
                k,
                k.theme.ink,
                text::replaced(text::trimmed_end(raw), "\t"@, "    "@, 0),
            ),
            Some(marker),
        ),
{
}

// ---------------------------------------------------------------------
// What each line is taken for
// ---------------------------------------------------------------------

/// Every line of a text has its row, in order, each read with the fence it stands
/// in.
pub proof fn every_line_has_its_row(k: Skin, lines: Seq<Seq<char>>, line: Seq<char>)
    ensures
        rows_of(k, Seq::empty()) == (Seq::<Seq<char>>::empty(), None::<Seq<char>>),
        rows_of(k, lines.push(line)).0 == rows_of(k, lines).0.push(
            line_step(k, rows_of(k, lines).1, line).0,
        ),
        rows_of(k, lines.push(line)).1 == line_step(k, rows_of(k, lines).1, line).1,
{
    assert(lines.push(line).drop_last() =~= lines);
}

/// A fence opens code, and only the same fence closes it.
pub proof fn a_fence_is_closed_by_its_own(k: Skin, raw: Seq<char>)
    ensures
        ({
            let t = text::trimmed_start(text::trimmed_end(raw));
            &&& text::starts(t, "```"@) ==> line_step(k, None, raw).1 == Some("```"@)
                && line_step(k, Some("```"@), raw).1 is None
            &&& text::starts(t, "~~~"@) ==> line_step(k, None, raw).1 == Some("~~~"@)
                && line_step(k, Some("~~~"@), raw).1 is None
            &&& !text::starts(t, "```"@) && !text::starts(t, "~~~"@) ==> line_step(k, None, raw) == (
                line_text(k, text::trimmed_end(raw)),
                None::<Seq<char>>,
            )
            &&& !text::starts(t, "```"@) ==> line_step(k, Some("```"@), raw).1 == Some("```"@)
            &&& !text::starts(t, "~~~"@) ==> line_step(k, Some("~~~"@), raw).1 == Some("~~~"@)
        }),
{
    reveal_strlit("```");
    reveal_strlit("~~~");
    let t = text::trimmed_start(text::trimmed_end(raw));
    if text::starts(t, "```"@) && text::starts(t, "~~~"@) {
        assert(t.subrange(0, 3)[0] == '`');
        assert(t.subrange(0, 3)[0] == '~');
    }
}

/// An item is what follows its mark, whichever of the three that is; its box is
/// ticked where it was.
pub proof fn an_item_is_what_follows_its_mark(k: Skin, s: Seq<char>)
    ensures
        item_of("- "@ + s) == Some(s),
        item_of("* "@ + s) == Some(s),
        item_of("+ "@ + s) == Some(s),
        boxed(k, "[ ] "@ + s) == (ui::dimmed(k, "☐"@), s),
        boxed(k, "[x] "@ + s) == (ui::painted(k, k.theme.progress, "☑"@), s),
        boxed(k, "[X] "@ + s) == (ui::painted(k, k.theme.progress, "☑"@), s),
{
    reveal_strlit("- ");
    reveal_strlit("* ");
    reveal_strlit("+ ");
    reveal_strlit("[ ] ");
    reveal_strlit("[x] ");
    reveal_strlit("[X] ");
    lemma_prefix("- "@, s);
    lemma_prefix("* "@, s);
    lemma_prefix("+ "@, s);
    lemma_prefix("[ ] "@, s);
    lemma_prefix("[x] "@, s);
    lemma_prefix("[X] "@, s);
    lemma_other_prefix("* "@ + s, "- "@, 0);
    lemma_other_prefix("+ "@ + s, "- "@, 0);
    lemma_other_prefix("+ "@ + s, "* "@, 0);
    lemma_other_prefix("[x] "@ + s, "[ ] "@, 1);
    lemma_other_prefix("[X] "@ + s, "[ ] "@, 1);
    lemma_other_prefix("[X] "@ + s, "[x] "@, 1);
}

proof fn lemma_prefix(p: Seq<char>, s: Seq<char>)
    ensures
        text::after_prefix(p + s, p) == Some(s),
{
    assert((p + s).subrange(0, p.len() as int) =~= p);
    assert((p + s).skip(p.len() as int) =~= s);
}

proof fn lemma_other_prefix(w: Seq<char>, p: Seq<char>, i: int)
    requires
        0 <= i < p.len(),
        p.len() <= w.len(),
        w[i] != p[i],
    ensures
        text::after_prefix(w, p) is None,
{
    if text::starts(w, p) {
        assert(w.subrange(0, p.len() as int)[i] == w[i]);
    }
}

/// A line of three marks or more and nothing else is a rule.
pub proof fn a_rule_is_marks_alone(s: Seq<char>)
    ensures
        is_rule(s) ==> forall|i: int|
            0 <= i < s.len() ==> (#[trigger] s[i] == '-' || s[i] == '*' || s[i] == '_' || s[i]
                == ' '),
        is_rule("---"@) && is_rule("***"@) && is_rule("___"@),
        !is_rule("--"@),
{
    reveal_strlit("---");
    reveal_strlit("***");
    reveal_strlit("___");
    reveal_strlit("--");
    lemma_three("---"@);
    lemma_three("***"@);
    lemma_three("___"@);
    reveal_with_fuel(ink_count, 3);
    assert(ink_count("--"@) <= 2);
}

proof fn lemma_three(s: Seq<char>)
    requires
        s.len() == 3,
        forall|i: int| 0 <= i < 3 ==> !text::white(#[trigger] s[i]),
    ensures
        ink_count(s) == 3,
{
    reveal_with_fuel(ink_count, 4);
    assert(s.drop_last().last() == s[1]);
    assert(s.drop_last().drop_last().last() == s[0]);
}

} // verus!
