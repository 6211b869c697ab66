//! Styled text wrapped to the terminal before it is drawn, so that the rows
//! inserted are the rows drawn.

use crate::outside;
use crate::text;
use vstd::prelude::*;
use vstd::string::*;

verus! {

/// A run of text in one style. The style is the caller's own number for it.
#[derive(Debug)]
pub struct Run {
    pub text: String,
    pub style: usize,
}

pub open spec fn run_view(v: Seq<Run>) -> Seq<(Seq<char>, usize)> {
    Seq::new(v.len(), |i: int| (v[i].text@, v[i].style))
}

pub open spec fn line_views(v: Seq<Vec<Run>>) -> Seq<Seq<(Seq<char>, usize)>> {
    Seq::new(v.len(), |i: int| run_view(v[i]@))
}

/// A text without its carriage returns.
pub open spec fn printable(s: Seq<char>) -> Seq<char>
    decreases s.len(),
{
    if s.len() == 0 {
        seq![]
    } else if s.last() == '\r' {
        printable(s.drop_last())
    } else {
        printable(s.drop_last()).push(s.last())
    }
}

/// The characters of a line.
pub open spec fn chars_in<S>(runs: Seq<(Seq<char>, S)>) -> Seq<char>
    decreases runs.len(),
{
    if runs.len() == 0 {
        seq![]
    } else {
        chars_in(runs.drop_last()) + printable(runs.last().0)
    }
}

/// The style of each character of a line.
pub open spec fn styles_in<S>(runs: Seq<(Seq<char>, S)>) -> Seq<S>
    decreases runs.len(),
{
    if runs.len() == 0 {
        seq![]
    } else {
        styles_in(runs.drop_last()) + Seq::new(
            printable(runs.last().0).len(),
            |i: int| runs.last().1,
        )
    }
}

/// Cells that some characters take when they are drawn.
pub open spec fn drawn(cs: Seq<char>) -> nat
    decreases cs.len(),
{
    if cs.len() == 0 {
        0
    } else {
        drawn(cs.drop_last()) + outside::drawn_width(cs.last()) as nat
    }
}

/// The last space of a row that does not stand in front.
pub open spec fn last_space(row: Seq<char>) -> Option<nat>
    decreases row.len(),
{
    if row.len() <= 1 {
        None
    } else if row.last() == ' ' {
        Some((row.len() - 1) as nat)
    } else {
        last_space(row.drop_last())
    }
}

/// The rows of the first `n` characters, each from one index up to another, and
/// where the row begins that is still open. A space that does not fit is
/// dropped; a word that does not fit moves down whole, unless it is alone on
/// its row.
pub open spec fn laid(cs: Seq<char>, cols: nat, n: nat) -> (Seq<(nat, nat)>, nat)
    decreases n,
{
    if n == 0 {
        (seq![], 0)
    } else {
        let i = (n - 1) as nat;
        let (rows, from) = laid(cs, cols, i);
        let row = cs.subrange(from as int, i as int);
        let c = cs[i as int];
        if from < i && drawn(row) + outside::drawn_width(c) > cols {
            if c == ' ' {
                (rows.push((from, i)), n)
            } else {
                match last_space(row) {
                    Some(s) => (rows.push((from, from + s)), from + s + 1),
                    None => (rows.push((from, i)), i),
                }
            }
        } else {
            (rows, from)
        }
    }
}

/// The rows of one line.
pub open spec fn rows_of(cs: Seq<char>, cols: nat) -> Seq<(nat, nat)> {
    let (rows, from) = laid(cs, cols, cs.len());
    rows.push((from, cs.len()))
}

/// A row as runs: neighbours of one style together.
pub open spec fn merged<S>(cs: Seq<char>, st: Seq<S>, from: nat, to: nat) -> Seq<(Seq<char>, S)>
    decreases to - from,
{
    if to <= from {
        seq![]
    } else {
        let i = to - 1;
        let before = merged(cs, st, from, i as nat);
        if before.len() > 0 && before.last().1 == st[i] {
            before.drop_last().push((before.last().0.push(cs[i]), st[i]))
        } else {
            before.push((seq![cs[i]], st[i]))
        }
    }
}

pub open spec fn merged_rows<S>(cs: Seq<char>, st: Seq<S>, rows: Seq<(nat, nat)>) -> Seq<
    Seq<(Seq<char>, S)>,
> {
    Seq::new(rows.len(), |i: int| merged(cs, st, rows[i].0, rows[i].1))
}

/// A line wrapped.
pub open spec fn wrapped_line<S>(runs: Seq<(Seq<char>, S)>, cols: nat) -> Seq<
    Seq<(Seq<char>, S)>,
> {
    merged_rows(chars_in(runs), styles_in(runs), rows_of(chars_in(runs), cols))
}

/// A text wrapped: each line's rows, one after another.
pub open spec fn wrapped_text<S>(lines: Seq<Seq<(Seq<char>, S)>>, cols: nat) -> Seq<
    Seq<(Seq<char>, S)>,
>
    decreases lines.len(),
{
    if lines.len() == 0 {
        seq![]
    } else {
        wrapped_text(lines.drop_last(), cols) + wrapped_line(lines.last(), cols)
    }
}

/// The width that is wrapped to: at least one cell.
pub open spec fn columns(cols: u16) -> nat {
    if cols == 0 {
        1
    } else {
        cols as nat
    }
}

fn add_run(run: &Run, cs: &mut Vec<char>, st: &mut Vec<usize>)
    ensures
        final(cs)@ == old(cs)@ + printable(run.text@),
        final(st)@ == old(st)@ + Seq::new(printable(run.text@).len(), |i: int| run.style),
{
    let v = text::chars_of(run.text.as_str());
    let ghost c0 = cs@;
    let ghost s0 = st@;
    let mut j: usize = 0;
    assert(v@.take(0) =~= Seq::<char>::empty());
    assert(c0 + printable(v@.take(0)) =~= c0);
    assert(s0 + Seq::new(printable(v@.take(0)).len(), |i: int| run.style) =~= s0);
    while j < v.len()
        invariant
            j <= v.len(),
            cs@ == c0 + printable(v@.take(j as int)),
            st@ == s0 + Seq::new(printable(v@.take(j as int)).len(), |i: int| run.style),
        decreases v.len() - j,
    {
        assert(v@.take(j + 1).drop_last() =~= v@.take(j as int));
        if v[j] != '\r' {
            cs.push(v[j]);
            st.push(run.style);
            assert(cs@ =~= c0 + printable(v@.take(j + 1)));
            assert(st@ =~= s0 + Seq::new(printable(v@.take(j + 1)).len(), |i: int| run.style));
        }
        j = j + 1;
    }
    assert(v@.take(j as int) =~= v@);
}

proof fn lemma_line_len<S>(runs: Seq<(Seq<char>, S)>)
    ensures
        chars_in(runs).len() == styles_in(runs).len(),
    decreases runs.len(),
{
    if runs.len() > 0 {
        lemma_line_len(runs.drop_last());
    }
}

/// A sum that stops at the largest number there is.
pub open spec fn capped(n: nat) -> nat {
    if n <= usize::MAX {
        n
    } else {
        usize::MAX as nat
    }
}

fn row_width(cs: &Vec<char>, from: usize, to: usize) -> (n: usize)
    requires
        from <= to <= cs.len(),
    ensures
        n == capped(drawn(cs@.subrange(from as int, to as int))),
{
    let mut n: usize = 0;
    let mut i: usize = from;
    assert(cs@.subrange(from as int, from as int) =~= Seq::<char>::empty());
    while i < to
        invariant
            from <= i <= to <= cs.len(),
            n == capped(drawn(cs@.subrange(from as int, i as int))),
        decreases to - i,
    {
        assert(cs@.subrange(from as int, i + 1).drop_last() =~= cs@.subrange(
            from as int,
            i as int,
        ));
        assert(cs@.subrange(from as int, i + 1).last() == cs@[i as int]);
        n = n.saturating_add(outside::span_width(cs[i]));
        i = i + 1;
    }
    n
}

fn break_at(cs: &Vec<char>, from: usize, to: usize) -> (r: Option<usize>)
    requires
        from <= to <= cs.len(),
    ensures
        match r {
            Some(s) => last_space(cs@.subrange(from as int, to as int)) == Some(s as nat) && 0 < s
                && from + s < to,
            None => last_space(cs@.subrange(from as int, to as int)) is None,
        },
{
    let mut i: usize = to;
    while i > from && i - from > 1
        invariant
            from <= i <= to <= cs.len(),
            last_space(cs@.subrange(from as int, to as int)) == last_space(
                cs@.subrange(from as int, i as int),
            ),
        decreases i,
    {
        assert(cs@.subrange(from as int, i as int).last() == cs@[i - 1]);
        if cs[i - 1] == ' ' {
            return Some(i - 1 - from);
        }
        assert(cs@.subrange(from as int, i as int).drop_last() =~= cs@.subrange(
            from as int,
            i - 1,
        ));
        i = i - 1;
    }
    None
}

fn to_runs(cs: &Vec<char>, st: &Vec<usize>, from: usize, to: usize) -> (out: Vec<Run>)
    requires
        from <= to <= cs.len(),
        cs.len() == st.len(),
    ensures
        run_view(out@) == merged(cs@, st@, from as nat, to as nat),
{
    let mut out: Vec<Run> = Vec::new();
    let mut i: usize = from;
    assert(run_view(out@) =~= Seq::<(Seq<char>, usize)>::empty());
    while i < to
        invariant
            from <= i <= to <= cs.len(),
            cs.len() == st.len(),
            run_view(out@) == merged(cs@, st@, from as nat, i as nat),
        decreases to - i,
    {
        let c = cs[i];
        let style: usize = st[i];
        let ghost was = run_view(out@);
        let n: usize = out.len();
        assert(was.len() == n);
        if n > 0 && out[n - 1].style == style {
            assert(was.last() == (out@[n - 1].text@, out@[n - 1].style));
            match out.pop() {
                Some(last) => {
                    let mut s = last.text;
                    s.push(c);
                    out.push(Run { text: s, style });
                },
                None => {},
            }
            assert(run_view(out@) =~= was.drop_last().push((was.last().0.push(c), style)));
        } else {
            let mut s = String::new();
            s.push(c);
            assert(s@ =~= seq![c]);
            out.push(Run { text: s, style });
            assert(run_view(out@) =~= was.push((seq![c], style)));
        }
        i = i + 1;
    }
    out
}

fn add_row(
    cs: &Vec<char>,
    st: &Vec<usize>,
    from: usize,
    to: usize,
    Ghost(rows): Ghost<Seq<(nat, nat)>>,
    out: &mut Vec<Vec<Run>>,
    Ghost(start): Ghost<Seq<Seq<(Seq<char>, usize)>>>,
)
    requires
        from <= to <= cs.len(),
        cs.len() == st.len(),
        line_views(old(out)@) == start + merged_rows(cs@, st@, rows),
    ensures
        line_views(final(out)@) == start + merged_rows(
            cs@,
            st@,
            rows.push((from as nat, to as nat)),
        ),
{
    let ghost was = line_views(out@);
    let runs = to_runs(cs, st, from, to);
    out.push(runs);
    let ghost one = merged(cs@, st@, from as nat, to as nat);
    assert(line_views(out@) =~= was.push(one));
    assert(merged_rows(cs@, st@, rows.push((from as nat, to as nat))) =~= merged_rows(
        cs@,
        st@,
        rows,
    ).push(one));
    assert((start + merged_rows(cs@, st@, rows)).push(one) =~= start + merged_rows(
        cs@,
        st@,
        rows,
    ).push(one));
}

fn wrap_line(cs: &Vec<char>, st: &Vec<usize>, cols: usize, out: &mut Vec<Vec<Run>>)
    requires
        cs.len() == st.len(),
        cols < usize::MAX,
    ensures
        line_views(final(out)@) == line_views(old(out)@) + merged_rows(
            cs@,
            st@,
            rows_of(cs@, cols as nat),
        ),
{
    let ghost start = line_views(out@);
    let ghost mut rows: Seq<(nat, nat)> = seq![];
    let mut from: usize = 0;
    let mut used: usize = 0;
    let mut i: usize = 0;
    assert(start + merged_rows(cs@, st@, rows) =~= start);
    assert(cs@.subrange(0, 0) =~= Seq::<char>::empty());
    while i < cs.len()
        invariant
            from <= i <= cs.len(),
            cs.len() == st.len(),
            cols < usize::MAX,
            laid(cs@, cols as nat, i as nat) == (rows, from as nat),
            used == capped(drawn(cs@.subrange(from as int, i as int))),
            line_views(out@) == start + merged_rows(cs@, st@, rows),
        decreases cs.len() - i,
    {
        let c = cs[i];
        let w: usize = outside::span_width(c);
        if used.saturating_add(w) > cols && from < i {
            if c == ' ' {
                add_row(cs, st, from, i, Ghost(rows), out, Ghost(start));
                proof {
                    rows = rows.push((from as nat, i as nat));
                }
                from = i + 1;
                used = 0;
                i = i + 1;
                assert(cs@.subrange(from as int, i as int) =~= Seq::<char>::empty());
                continue;
            }
            match break_at(cs, from, i) {
                Some(s) => {
                    add_row(cs, st, from, from + s, Ghost(rows), out, Ghost(start));
                    proof {
                        rows = rows.push((from as nat, (from + s) as nat));
                    }
                    from = from + s + 1;
                },
                None => {
                    add_row(cs, st, from, i, Ghost(rows), out, Ghost(start));
                    proof {
                        rows = rows.push((from as nat, i as nat));
                    }
                    from = i;
                },
            }
            used = row_width(cs, from, i);
        }
        used = used.saturating_add(w);
        assert(cs@.subrange(from as int, i + 1).drop_last() =~= cs@.subrange(
            from as int,
            i as int,
        ));
        assert(cs@.subrange(from as int, i + 1).last() == c);
        i = i + 1;
    }
    add_row(cs, st, from, cs.len(), Ghost(rows), out, Ghost(start));
}

/// Word-wrap styled text to `cols` cells, keeping each character's style: break
/// at the last space that fits, or mid-word if a word alone is wider than the
/// line.
pub fn wrap_text(lines: &Vec<Vec<Run>>, cols: u16) -> (out: Vec<Vec<Run>>)
    ensures
        line_views(out@) == wrapped_text(line_views(lines@), columns(cols)),
{
    let width: usize = if cols == 0 {
        1
    } else {
        cols as usize
    };
    let ghost all = line_views(lines@);
    let mut out: Vec<Vec<Run>> = Vec::new();
    let mut i: usize = 0;
    assert(all.take(0) =~= Seq::<Seq<(Seq<char>, usize)>>::empty());
    assert(line_views(out@) =~= Seq::<Seq<(Seq<char>, usize)>>::empty());
    while i < lines.len()
        invariant
            i <= lines.len(),
            width == columns(cols),
            all == line_views(lines@),
            line_views(out@) == wrapped_text(all.take(i as int), width as nat),
        decreases lines.len() - i,
    {
        assert(all.take(i + 1).drop_last() =~= all.take(i as int));
        assert(all.take(i + 1).last() == run_view(lines@[i as int]@));
        let runs = &lines[i];
        let ghost these = run_view(runs@);
        let mut cs: Vec<char> = Vec::new();
        let mut st: Vec<usize> = Vec::new();
        let mut j: usize = 0;
        assert(these.take(0) =~= Seq::<(Seq<char>, usize)>::empty());
        while j < runs.len()
            invariant
                j <= runs.len(),
                these == run_view(runs@),
                cs@ == chars_in(these.take(j as int)),
                st@ == styles_in(these.take(j as int)),
            decreases runs.len() - j,
        {
            assert(these.take(j + 1).drop_last() =~= these.take(j as int));
            assert(these.take(j + 1).last() == (runs@[j as int].text@, runs@[j as int].style));
            let ghost s0 = st@;
            add_run(&runs[j], &mut cs, &mut st);
            assert(st@ =~= styles_in(these.take(j + 1)));
            j = j + 1;
        }
        assert(these.take(j as int) =~= these);
        proof {
            lemma_line_len(these);
        }
        assert(cs@.len() == st@.len());
        wrap_line(&cs, &st, width, &mut out);
        i = i + 1;
    }
    assert(all.take(i as int) =~= all);
    out
}

// ---------------------------------------------------------------------
// Coloured text
// ---------------------------------------------------------------------

/// How a run is drawn: its colours by their names, and the bits of the modifiers
/// that it puts on and takes off.
#[derive(Debug, PartialEq, Eq)]
pub struct Look {
    pub fg: Option<String>,
    pub bg: Option<String>,
    pub underline: Option<String>,
    pub add: u16,
    pub sub: u16,
}

pub struct LookView {
    pub fg: Option<Seq<char>>,
    pub bg: Option<Seq<char>>,
    pub underline: Option<Seq<char>>,
    pub add: u16,
    pub sub: u16,
}

impl View for Look {
    type V = LookView;

    open spec fn view(&self) -> LookView {
        LookView {
            fg: text::text_view(self.fg),
            bg: text::text_view(self.bg),
            underline: text::text_view(self.underline),
            add: self.add,
            sub: self.sub,
        }
    }
}

/// A run of text and how it is drawn.
#[derive(Debug)]
pub struct Styled {
    pub text: String,
    pub look: Look,
}

pub open spec fn look_runs(v: Seq<Styled>) -> Seq<(Seq<char>, LookView)> {
    Seq::new(v.len(), |i: int| (v[i].text@, v[i].look@))
}

pub open spec fn look_lines(v: Seq<Vec<Styled>>) -> Seq<Seq<(Seq<char>, LookView)>> {
    Seq::new(v.len(), |i: int| look_runs(v[i]@))
}

pub open spec fn look_text(o: Option<Vec<Vec<Styled>>>) -> Option<Seq<Seq<(Seq<char>, LookView)>>> {
    match o {
        Some(v) => Some(look_lines(v@)),
        None => None,
    }
}

/// The look of text without colour.
pub open spec fn bare() -> LookView {
    LookView { fg: None, bg: None, underline: None, add: 0, sub: 0 }
}

pub open spec fn bare_line(s: Seq<char>) -> Seq<(Seq<char>, LookView)> {
    if s.len() == 0 {
        seq![]
    } else {
        seq![(s, bare())]
    }
}

/// A text's lines without colour; at least one.
pub open spec fn bare_lines(s: Seq<char>) -> Seq<Seq<(Seq<char>, LookView)>> {
    if s.len() == 0 {
        seq![seq![]]
    } else {
        Seq::new(text::lines(s).len(), |i: int| bare_line(text::lines(s)[i]))
    }
}

/// A text with its colour codes read, or as it stands where they cannot be.
pub open spec fn coloured(
    s: Seq<char>,
    read: Option<Seq<Seq<(Seq<char>, LookView)>>>,
) -> Seq<Seq<(Seq<char>, LookView)>> {
    match read {
        Some(lines) => lines,
        None => bare_lines(s),
    }
}

fn bare_look() -> (r: Look)
    ensures
        r@ == bare(),
{
    Look { fg: None, bg: None, underline: None, add: 0, sub: 0 }
}

/// `s` as it stands, where `read` did not come to anything.
pub fn or_bare(s: &str, read: Option<Vec<Vec<Styled>>>) -> (out: Vec<Vec<Styled>>)
    ensures
        look_lines(out@) == coloured(s@, look_text(read)),
{
    match read {
        Some(v) => {
            return v;
        },
        None => {},
    }
    let mut out: Vec<Vec<Styled>> = Vec::new();
    if s.is_empty() {
        let none: Vec<Styled> = Vec::new();
        assert(look_runs(none@) =~= Seq::<(Seq<char>, LookView)>::empty());
        out.push(none);
        assert(look_lines(out@) =~= bare_lines(s@));
        return out;
    }
    let lines = text::lines_of(s);
    let mut i: usize = 0;
    while i < lines.len()
        invariant
            i <= lines.len(),
            text::texts(lines@) == text::lines(s@),
            out.len() == i,
            forall|k: int|
                0 <= k < i ==> look_runs((#[trigger] out@[k])@) == bare_line(text::lines(s@)[k]),
        decreases lines.len() - i,
    {
        assert(text::lines(s@)[i as int] == lines@[i as int]@);
        let mut runs: Vec<Styled> = Vec::new();
        if !lines[i].as_str().is_empty() {
            runs.push(Styled { text: lines[i].clone(), look: bare_look() });
        }
        assert(look_runs(runs@) =~= bare_line(lines@[i as int]@));
        out.push(runs);
        i = i + 1;
    }
    assert(look_lines(out@) =~= bare_lines(s@));
    out
}

/// A coloured text's lines.
pub fn read_colours(s: &str) -> (out: Vec<Vec<Styled>>)
    ensures
        look_lines(out@) == coloured(s@, outside::ansi_lines(s@)),
{
    or_bare(s, outside::ansi_text(s))
}

fn same_colour(a: &Option<String>, b: &Option<String>) -> (r: bool)
    ensures
        r == (text::text_view(*a) == text::text_view(*b)),
{
    match (a, b) {
        (Some(x), Some(y)) => text::same(x.as_str(), y.as_str()),
        (None, None) => true,
        _ => false,
    }
}

fn copy_colour(a: &Option<String>) -> (r: Option<String>)
    ensures
        text::text_view(r) == text::text_view(*a),
{
    match a {
        Some(x) => Some(x.clone()),
        None => None,
    }
}

impl Look {
    fn same(&self, other: &Look) -> (r: bool)
        ensures
            r == (self@ == other@),
    {
        same_colour(&self.fg, &other.fg) && same_colour(&self.bg, &other.bg) && same_colour(
            &self.underline,
            &other.underline,
        ) && self.add == other.add && self.sub == other.sub
    }

    fn copy(&self) -> (r: Look)
        ensures
            r@ == self@,
    {
        Look {
            fg: copy_colour(&self.fg),
            bg: copy_colour(&self.bg),
            underline: copy_colour(&self.underline),
            add: self.add,
            sub: self.sub,
        }
    }
}

spec fn looks(v: Seq<Look>) -> Seq<LookView> {
    Seq::new(v.len(), |i: int| v[i]@)
}

/// Runs whose styles are numbers, with what the numbers stand for.
spec fn named<T>(runs: Seq<(Seq<char>, usize)>, table: Seq<T>) -> Seq<(Seq<char>, T)> {
    Seq::new(runs.len(), |i: int| (runs[i].0, table[runs[i].1 as int]))
}

spec fn named_lines<T>(lines: Seq<Seq<(Seq<char>, usize)>>, table: Seq<T>) -> Seq<
    Seq<(Seq<char>, T)>,
> {
    Seq::new(lines.len(), |i: int| named(lines[i], table))
}

spec fn named_styles<T>(st: Seq<usize>, table: Seq<T>) -> Seq<T> {
    Seq::new(st.len(), |i: int| table[st[i] as int])
}

spec fn listed(runs: Seq<(Seq<char>, usize)>, n: nat) -> bool {
    forall|i: int| 0 <= i < runs.len() ==> (#[trigger] runs[i]).1 < n
}

spec fn all_listed(lines: Seq<Seq<(Seq<char>, usize)>>, n: nat) -> bool {
    forall|i: int| 0 <= i < lines.len() ==> listed(#[trigger] lines[i], n)
}

proof fn lemma_named_line<T>(runs: Seq<(Seq<char>, usize)>, table: Seq<T>)
    requires
        listed(runs, table.len()),
    ensures
        chars_in(named(runs, table)) == chars_in(runs),
        styles_in(named(runs, table)) == named_styles(styles_in(runs), table),
        forall|i: int|
            0 <= i < styles_in(runs).len() ==> (#[trigger] styles_in(runs)[i]) < table.len(),
    decreases runs.len(),
{
    if runs.len() > 0 {
        let front = runs.drop_last();
        assert(listed(front, table.len())) by {
            assert forall|i: int| 0 <= i < front.len() implies (#[trigger] front[i]).1
                < table.len() by {
                assert(front[i] == runs[i]);
            }
        }
        lemma_named_line(front, table);
        assert(named(runs, table).drop_last() =~= named(front, table));
        assert(runs.last() == runs[runs.len() - 1]);
        assert(named(runs, table).last() == (runs.last().0, table[runs.last().1 as int]));
        assert(styles_in(named(runs, table)) =~= named_styles(styles_in(runs), table));
    } else {
        assert(named(runs, table) =~= Seq::<(Seq<char>, T)>::empty());
        assert(styles_in(named(runs, table)) =~= named_styles(styles_in(runs), table));
    }
}

proof fn lemma_named_row<T>(cs: Seq<char>, st: Seq<usize>, table: Seq<T>, from: nat, to: nat)
    requires
        table.no_duplicates(),
        to <= st.len(),
        forall|i: int| 0 <= i < st.len() ==> (#[trigger] st[i]) < table.len(),
    ensures
        merged(cs, named_styles(st, table), from, to) == named(merged(cs, st, from, to), table),
        listed(merged(cs, st, from, to), table.len()),
    decreases to - from,
{
    if to <= from {
        assert(merged(cs, named_styles(st, table), from, to) =~= named(
            merged(cs, st, from, to),
            table,
        ));
    } else {
        let i = to - 1;
        lemma_named_row(cs, st, table, from, i as nat);
        let before = merged(cs, st, from, i as nat);
        let other = merged(cs, named_styles(st, table), from, i as nat);
        assert(other == named(before, table));
        if before.len() > 0 {
            assert(before.last() == before[before.len() - 1]);
            assert(before.last().1 < table.len());
            assert(other.last() == (before.last().0, table[before.last().1 as int]));
        }
        assert(merged(cs, named_styles(st, table), from, to) =~= named(
            merged(cs, st, from, to),
            table,
        ));
    }
}

proof fn lemma_rows_within(cs: Seq<char>, cols: nat, n: nat)
    requires
        n <= cs.len(),
    ensures
        laid(cs, cols, n).1 <= n,
        forall|i: int|
            0 <= i < laid(cs, cols, n).0.len() ==> (#[trigger] laid(cs, cols, n).0[i]).1 <= n,
    decreases n,
{
    if n > 0 {
        let i = (n - 1) as nat;
        let (rows, from) = laid(cs, cols, i);
        lemma_rows_within(cs, cols, i);
        lemma_last_space(cs.subrange(from as int, i as int));
        let next = laid(cs, cols, n).0;
        assert forall|j: int| 0 <= j < next.len() implies (#[trigger] next[j]).1 <= n by {
            if j < rows.len() {
                assert(next[j] == rows[j]);
            }
        }
    }
}

proof fn lemma_named_wrap<T>(runs: Seq<(Seq<char>, usize)>, table: Seq<T>, cols: nat)
    requires
        table.no_duplicates(),
        listed(runs, table.len()),
    ensures
        wrapped_line(named(runs, table), cols) == named_lines(wrapped_line(runs, cols), table),
        all_listed(wrapped_line(runs, cols), table.len()),
{
    let cs = chars_in(runs);
    let st = styles_in(runs);
    let rows = rows_of(cs, cols);
    lemma_named_line(runs, table);
    lemma_line_len(runs);
    lemma_rows_within(cs, cols, cs.len());
    assert forall|i: int| 0 <= i < rows.len() implies listed(
        #[trigger] wrapped_line(runs, cols)[i],
        table.len(),
    ) && wrapped_line(named(runs, table), cols)[i] == named(wrapped_line(runs, cols)[i], table) by {
        if i < laid(cs, cols, cs.len()).0.len() {
            assert(rows[i] == laid(cs, cols, cs.len()).0[i]);
        }
        lemma_named_row(cs, st, table, rows[i].0, rows[i].1);
    }
    assert(wrapped_line(named(runs, table), cols) =~= named_lines(wrapped_line(runs, cols), table));
}

proof fn lemma_named_text<T>(lines: Seq<Seq<(Seq<char>, usize)>>, table: Seq<T>, cols: nat)
    requires
        table.no_duplicates(),
        all_listed(lines, table.len()),
    ensures
        wrapped_text(named_lines(lines, table), cols) == named_lines(
            wrapped_text(lines, cols),
            table,
        ),
        all_listed(wrapped_text(lines, cols), table.len()),
    decreases lines.len(),
{
    if lines.len() > 0 {
        let front = lines.drop_last();
        assert forall|i: int| 0 <= i < front.len() implies listed(
            #[trigger] front[i],
            table.len(),
        ) by {
            assert(front[i] == lines[i]);
        }
        lemma_named_text(front, table, cols);
        assert(lines.last() == lines[lines.len() - 1]);
        lemma_named_wrap(lines.last(), table, cols);
        assert(named_lines(lines, table).drop_last() =~= named_lines(front, table));
        let a = wrapped_text(front, cols);
        let b = wrapped_line(lines.last(), cols);
        assert(named_lines(a + b, table) =~= named_lines(a, table) + named_lines(b, table));
        assert forall|i: int| 0 <= i < (a + b).len() implies listed(
            #[trigger] (a + b)[i],
            table.len(),
        ) by {
            if i < a.len() {
                assert((a + b)[i] == a[i]);
            } else {
                assert((a + b)[i] == b[i - a.len()]);
            }
        }
    } else {
        assert(wrapped_text(named_lines(lines, table), cols) =~= named_lines(
            wrapped_text(lines, cols),
            table,
        ));
    }
}

/// The number of a look, which is put in the table where it is new.
fn number_of(table: &mut Vec<Look>, look: &Look) -> (n: usize)
    requires
        looks(old(table)@).no_duplicates(),
    ensures
        looks(final(table)@).no_duplicates(),
        looks(old(table)@).is_prefix_of(looks(final(table)@)),
        n < final(table).len(),
        final(table)@[n as int]@ == look@,
{
    let mut i: usize = 0;
    while i < table.len()
        invariant
            i <= table.len(),
            table@ == old(table)@,
            looks(table@).no_duplicates(),
            forall|k: int| 0 <= k < i ==> looks(table@)[k] != look@,
        decreases table.len() - i,
    {
        if table[i].same(look) {
            return i;
        }
        i = i + 1;
    }
    let ghost was = looks(table@);
    table.push(look.copy());
    assert(looks(table@) =~= was.push(look@));
    i
}

fn number_line(line: &Vec<Styled>, table: &mut Vec<Look>) -> (out: Vec<Run>)
    requires
        looks(old(table)@).no_duplicates(),
    ensures
        looks(final(table)@).no_duplicates(),
        looks(old(table)@).is_prefix_of(looks(final(table)@)),
        listed(run_view(out@), final(table)@.len()),
        named(run_view(out@), looks(final(table)@)) == look_runs(line@),
{
    let ghost first = looks(table@);
    let mut out: Vec<Run> = Vec::new();
    let mut i: usize = 0;
    while i < line.len()
        invariant
            i <= line.len(),
            out.len() == i,
            looks(table@).no_duplicates(),
            first.is_prefix_of(looks(table@)),
            forall|k: int|
                0 <= k < i ==> (#[trigger] out@[k]).style < table.len() && out@[k].text@
                    == line@[k].text@ && looks(table@)[out@[k].style as int] == line@[k].look@,
        decreases line.len() - i,
    {
        let ghost was = looks(table@);
        let n: usize = number_of(table, &line[i].look);
        assert forall|k: int| 0 <= k < i implies (#[trigger] out@[k]).style < table.len()
            && looks(table@)[out@[k].style as int] == line@[k].look@ by {
            assert(was[out@[k].style as int] == looks(table@)[out@[k].style as int]);
        }
        assert(looks(table@)[n as int] == line@[i as int].look@);
        out.push(Run { text: line[i].text.clone(), style: n });
        i = i + 1;
    }
    assert(named(run_view(out@), looks(table@)) =~= look_runs(line@));
    out
}

fn name_line(runs: &Vec<Run>, table: &Vec<Look>) -> (out: Vec<Styled>)
    requires
        listed(run_view(runs@), table@.len()),
    ensures
        look_runs(out@) == named(run_view(runs@), looks(table@)),
{
    let mut out: Vec<Styled> = Vec::new();
    let mut i: usize = 0;
    while i < runs.len()
        invariant
            i <= runs.len(),
            listed(run_view(runs@), table@.len()),
            out.len() == i,
            forall|k: int|
                0 <= k < i ==> (#[trigger] out@[k]).text@ == runs@[k].text@ && out@[k].look@
                    == table@[runs@[k].style as int]@,
        decreases runs.len() - i,
    {
        assert(run_view(runs@)[i as int].1 < table@.len());
        out.push(Styled { text: runs[i].text.clone(), look: table[runs[i].style].copy() });
        i = i + 1;
    }
    assert(look_runs(out@) =~= named(run_view(runs@), looks(table@)));
    out
}

/// The rows that a coloured text is drawn in on a terminal of `cols` columns.
pub fn drawn_rows(s: &str, cols: u16) -> (out: Vec<Vec<Styled>>)
    ensures
        look_lines(out@) == wrapped_text(
            coloured(s@, outside::ansi_lines(s@)),
            columns(cols),
        ),
{
    let lines = read_colours(s);
    wrap_colours(&lines, cols)
}

/// Word-wrap coloured lines to `cols` cells; every character keeps its look.
pub fn wrap_colours(lines: &Vec<Vec<Styled>>, cols: u16) -> (out: Vec<Vec<Styled>>)
    ensures
        look_lines(out@) == wrapped_text(look_lines(lines@), columns(cols)),
{
    let mut table: Vec<Look> = Vec::new();
    let mut numbered: Vec<Vec<Run>> = Vec::new();
    let mut i: usize = 0;
    assert(looks(table@).no_duplicates());
    while i < lines.len()
        invariant
            i <= lines.len(),
            numbered.len() == i,
            looks(table@).no_duplicates(),
            forall|k: int|
                0 <= k < i ==> listed(run_view((#[trigger] numbered@[k])@), table@.len()) && named(
                    run_view(numbered@[k]@),
                    looks(table@),
                ) == look_runs(lines@[k]@),
        decreases lines.len() - i,
    {
        let ghost was = looks(table@);
        let runs = number_line(&lines[i], &mut table);
        assert forall|k: int| 0 <= k < i implies listed(
            run_view((#[trigger] numbered@[k])@),
            table@.len(),
        ) && named(run_view(numbered@[k]@), looks(table@)) == look_runs(lines@[k]@) by {
            let v = run_view(numbered@[k]@);
            assert forall|j: int| 0 <= j < v.len() implies (#[trigger] v[j]).1 < table@.len()
                && looks(table@)[v[j].1 as int] == was[v[j].1 as int] by {
                assert(v[j].1 < was.len());
            }
            assert(named(v, looks(table@)) =~= named(v, was));
        }
        numbered.push(runs);
        i = i + 1;
    }
    let ghost ls = line_views(numbered@);
    assert(named_lines(ls, looks(table@)) =~= look_lines(lines@));
    assert forall|k: int| 0 <= k < ls.len() implies listed(
        #[trigger] ls[k],
        looks(table@).len(),
    ) by {
        assert(ls[k] == run_view(numbered@[k]@));
    }
    proof {
        lemma_named_text(ls, looks(table@), columns(cols));
    }
    let rows = wrap_text(&numbered, cols);
    let mut out: Vec<Vec<Styled>> = Vec::new();
    let mut j: usize = 0;
    while j < rows.len()
        invariant
            j <= rows.len(),
            all_listed(line_views(rows@), table@.len()),
            out.len() == j,
            forall|k: int|
                0 <= k < j ==> look_runs((#[trigger] out@[k])@) == named(
                    run_view(rows@[k]@),
                    looks(table@),
                ),
        decreases rows.len() - j,
    {
        assert(line_views(rows@)[j as int] == run_view(rows@[j as int]@));
        out.push(name_line(&rows[j], &table));
        j = j + 1;
    }
    assert(look_lines(out@) =~= named_lines(line_views(rows@), looks(table@)));
    out
}

// ---------------------------------------------------------------------
// What wrapping keeps
// ---------------------------------------------------------------------

/// The characters that are not spaces.
pub open spec fn inked(cs: Seq<char>) -> Seq<char>
    decreases cs.len(),
{
    if cs.len() == 0 {
        seq![]
    } else if cs.last() == ' ' {
        inked(cs.drop_last())
    } else {
        inked(cs.drop_last()).push(cs.last())
    }
}

/// The rows one after another.
pub open spec fn strung(cs: Seq<char>, rows: Seq<(nat, nat)>) -> Seq<char>
    decreases rows.len(),
{
    if rows.len() == 0 {
        seq![]
    } else {
        strung(cs, rows.drop_last()) + cs.subrange(
            rows.last().0 as int,
            rows.last().1 as int,
        )
    }
}

proof fn lemma_inked_join(a: Seq<char>, b: Seq<char>)
    ensures
        inked(a + b) == inked(a) + inked(b),
    decreases b.len(),
{
    if b.len() == 0 {
        assert(a + b =~= a);
        assert(inked(a) + inked(b) =~= inked(a));
    } else {
        lemma_inked_join(a, b.drop_last());
        assert((a + b).drop_last() =~= a + b.drop_last());
        assert(inked(a) + inked(b.drop_last()).push(b.last()) =~= (inked(a) + inked(
            b.drop_last(),
        )).push(b.last()));
    }
}

proof fn lemma_last_space(row: Seq<char>)
    ensures
        last_space(row) matches Some(i) ==> 0 < i < row.len() && row[i as int] == ' ',
    decreases row.len(),
{
    if row.len() > 1 && row.last() != ' ' {
        lemma_last_space(row.drop_last());
        match last_space(row.drop_last()) {
            Some(i) => {
                assert(row.drop_last()[i as int] == row[i as int]);
            },
            None => {},
        }
    }
}

/// Wrapping loses nothing but spaces at breaks: the rows of a line, strung
/// together, hold every character that is not a space, in order.
pub proof fn breaking_loses_only_spaces(cs: Seq<char>, cols: nat)
    ensures
        inked(strung(cs, rows_of(cs, cols))) == inked(cs),
{
    lemma_laid(cs, cols, cs.len());
    let (rows, from) = laid(cs, cols, cs.len());
    assert(rows.push((from, cs.len())).drop_last() =~= rows);
    assert(cs.take(cs.len() as int) =~= cs);
}

proof fn lemma_laid(cs: Seq<char>, cols: nat, n: nat)
    requires
        n <= cs.len(),
    ensures
        laid(cs, cols, n).1 <= n,
        inked(
            strung(cs, laid(cs, cols, n).0) + cs.subrange(laid(cs, cols, n).1 as int, n as int),
        ) == inked(cs.take(n as int)),
    decreases n,
{
    if n == 0 {
        assert(strung(cs, laid(cs, cols, n).0) + cs.subrange(0, 0) =~= cs.take(0));
    } else {
        let i = (n - 1) as nat;
        let (rows, from) = laid(cs, cols, i);
        let (next, at) = laid(cs, cols, n);
        lemma_laid(cs, cols, i);
        let row = cs.subrange(from as int, i as int);
        let c = cs[i as int];
        lemma_last_space(row);
        let s = strung(cs, rows);
        assert(cs.take(n as int).drop_last() =~= cs.take(i as int));
        assert(cs.take(n as int).last() == c);
        assert((s + row).push(c).drop_last() =~= s + row);
        assert(inked((s + row).push(c)) == inked(cs.take(n as int)));
        if from < i && drawn(row) + outside::drawn_width(c) > cols {
            if c == ' ' {
                assert(next.drop_last() =~= rows);
                assert(strung(cs, next) + cs.subrange(at as int, n as int) =~= s + row);
            } else {
                match last_space(row) {
                    Some(b) => {
                        let head = row.take(b as int);
                        let tail = row.skip(b as int + 1).push(c);
                        let gap = seq![row[b as int]];
                        assert(next.drop_last() =~= rows);
                        assert(cs.subrange(from as int, from + b as int) =~= head);
                        assert(cs.subrange(at as int, n as int) =~= tail);
                        assert(strung(cs, next) + tail =~= (s + head) + tail);
                        assert(inked(gap) =~= Seq::<char>::empty()) by {
                            reveal_with_fuel(inked, 2);
                            assert(gap.last() == ' ');
                            assert(gap.drop_last() =~= Seq::<char>::empty());
                        }
                        assert((s + row).push(c) =~= (s + head) + (gap + tail));
                        lemma_inked_join(s + head, tail);
                        lemma_inked_join(s + head, gap + tail);
                        lemma_inked_join(gap, tail);
                        assert(inked(gap) + inked(tail) =~= inked(tail));
                    },
                    None => {
                        assert(next.drop_last() =~= rows);
                        assert(strung(cs, next) + cs.subrange(at as int, n as int) =~= (s
                            + row).push(c));
                    },
                }
            }
        } else {
            assert(strung(cs, next) + cs.subrange(at as int, n as int) =~= (s + row).push(c));
        }
    }
}

/// Nothing of this stretch is seen.
pub open spec fn invisible(cs: Seq<char>, a: int, b: int) -> bool {
    forall|i: int| a <= i < b ==> outside::drawn_width(#[trigger] cs[i]) == 0
}

/// Every character is at most two cells wide and fits the terminal, spaces are
/// seen, and no word in front of a space is invisible as a whole.
pub open spec fn drawable(cs: Seq<char>, cols: nat) -> bool {
    &&& forall|i: int|
        0 <= i < cs.len() ==> {
            &&& outside::drawn_width(#[trigger] cs[i]) <= 2
            &&& outside::drawn_width(cs[i]) <= cols
            &&& cs[i] == ' ' ==> outside::drawn_width(cs[i]) >= 1
        }
    &&& forall|a: int, b: int|
        0 <= a < b < cs.len() && (a == 0 || cs[a - 1] == ' ') && cs[b] == ' '
            ==> !#[trigger] invisible(cs, a, b)
}

/// A row's cells are drawn within the terminal's width.
pub open spec fn fits(cs: Seq<char>, cols: nat, row: (nat, nat)) -> bool {
    row.0 <= row.1 <= cs.len() && drawn(cs.subrange(row.0 as int, row.1 as int)) <= cols
}

/// No row is wider than the terminal, wide characters counted as they are
/// drawn.
pub proof fn rows_fit(cs: Seq<char>, cols: nat)
    requires
        drawable(cs, cols),
    ensures
        forall|i: int|
            0 <= i < rows_of(cs, cols).len() ==> fits(cs, cols, #[trigger] rows_of(cs, cols)[i]),
{
    lemma_rows_fit(cs, cols, cs.len());
    let (rows, from) = laid(cs, cols, cs.len());
    assert forall|i: int| 0 <= i < rows_of(cs, cols).len() implies fits(
        cs,
        cols,
        #[trigger] rows_of(cs, cols)[i],
    ) by {
        if i < rows.len() {
            assert(rows_of(cs, cols)[i] == rows[i]);
        }
    }
}

proof fn lemma_drawn_join(a: Seq<char>, b: Seq<char>)
    ensures
        drawn(a + b) == drawn(a) + drawn(b),
    decreases b.len(),
{
    if b.len() == 0 {
        assert(a + b =~= a);
    } else {
        lemma_drawn_join(a, b.drop_last());
        assert((a + b).drop_last() =~= a + b.drop_last());
    }
}

proof fn lemma_seen(cs: Seq<char>, a: int, b: int, i: int)
    requires
        0 <= a <= i < b <= cs.len(),
        outside::drawn_width(cs[i]) >= 1,
    ensures
        drawn(cs.subrange(a, b)) >= 1,
    decreases b,
{
    assert(cs.subrange(a, b).drop_last() =~= cs.subrange(a, b - 1));
    assert(cs.subrange(a, b).last() == cs[b - 1]);
    if i < b - 1 {
        lemma_seen(cs, a, b - 1, i);
    }
}

/// A row begins the line, or after a space, or with a character that is seen.
spec fn begins_well(cs: Seq<char>, from: nat, n: nat) -> bool {
    from == 0 || cs[from - 1] == ' ' || (from < n && outside::drawn_width(cs[from as int]) >= 1)
}

/// In front of a row's last space something is seen.
proof fn lemma_front_seen(cs: Seq<char>, cols: nat, from: nat, to: nat)
    requires
        drawable(cs, cols),
        from < to < cs.len(),
        begins_well(cs, from, to),
        cs[to as int] == ' ',
    ensures
        drawn(cs.subrange(from as int, to as int)) >= 1,
{
    if outside::drawn_width(cs[from as int]) >= 1 {
        lemma_seen(cs, from as int, to as int, from as int);
    } else {
        assert(!invisible(cs, from as int, to as int));
        let i = choose|i: int| from <= i < to && outside::drawn_width(#[trigger] cs[i]) != 0;
        lemma_seen(cs, from as int, to as int, i);
    }
}

proof fn lemma_rows_fit(cs: Seq<char>, cols: nat, n: nat)
    requires
        drawable(cs, cols),
        n <= cs.len(),
    ensures
        laid(cs, cols, n).1 <= n,
        begins_well(cs, laid(cs, cols, n).1, n),
        drawn(cs.subrange(laid(cs, cols, n).1 as int, n as int)) <= cols,
        forall|i: int|
            0 <= i < laid(cs, cols, n).0.len() ==> fits(cs, cols, #[trigger] laid(cs, cols, n).0[i]),
    decreases n,
{
    if n == 0 {
        assert(cs.subrange(0, 0) =~= Seq::<char>::empty());
    } else {
        let i = (n - 1) as nat;
        lemma_rows_fit(cs, cols, i);
        let (rows, from) = laid(cs, cols, i);
        let (next, at) = laid(cs, cols, n);
        let row = cs.subrange(from as int, i as int);
        let c = cs[i as int];
        assert(cs.subrange(from as int, n as int).drop_last() =~= row);
        assert(cs.subrange(from as int, n as int).last() == c);
        assert(fits(cs, cols, (from, i)));
        assert(drawn(cs.subrange(from as int, n as int)) == drawn(row) + outside::drawn_width(c));
        if from < i && drawn(row) + outside::drawn_width(c) > cols {
            if c == ' ' {
                assert(cs.subrange(at as int, n as int) =~= Seq::<char>::empty());
            } else {
                lemma_last_space(row);
                match last_space(row) {
                    Some(s) => {
                        let b = from + s;
                        let front = cs.subrange(from as int, b as int);
                        let gap = cs.subrange(b as int, b as int + 1);
                        let tail = cs.subrange(b as int + 1, i as int);
                        assert(row =~= front + (gap + tail));
                        lemma_drawn_join(front, gap + tail);
                        lemma_drawn_join(gap, tail);
                        assert(cs[b as int] == row[s as int]);
                        lemma_front_seen(cs, cols, from, b);
                        lemma_seen(cs, b as int, b as int + 1, b as int);
                        assert(cs.subrange(at as int, n as int).drop_last() =~= tail);
                        assert(cs.subrange(at as int, n as int).last() == c);
                        assert(fits(cs, cols, (from, b)));
                    },
                    None => {
                        assert(cs.subrange(at as int, n as int).drop_last() =~= Seq::<char>::empty());
                        assert(cs.subrange(at as int, n as int).last() == c);
                        assert(drawn(Seq::<char>::empty()) == 0);
                    },
                }
            }
        } else if from == i {
            assert(row =~= Seq::<char>::empty());
            assert(drawn(row) == 0);
        }
        assert forall|j: int| 0 <= j < next.len() implies fits(cs, cols, #[trigger] next[j]) by {
            if j < rows.len() {
                assert(next[j] == rows[j]);
            }
        }
    }
}

/// The characters of some runs, each with its style.
pub open spec fn styled<S>(runs: Seq<(Seq<char>, S)>) -> Seq<(char, S)>
    decreases runs.len(),
{
    if runs.len() == 0 {
        seq![]
    } else {
        styled(runs.drop_last()) + Seq::new(
            runs.last().0.len(),
            |i: int| (runs.last().0[i], runs.last().1),
        )
    }
}

/// Every character keeps its style, however its row is broken, and no two runs
/// side by side have one style.
pub proof fn styles_survive_the_break<S>(cs: Seq<char>, st: Seq<S>, from: nat, to: nat)
    requires
        from <= to <= cs.len(),
        cs.len() == st.len(),
    ensures
        styled(merged(cs, st, from, to)) == Seq::new(
            (to - from) as nat,
            |i: int| (cs[from + i], st[from + i]),
        ),
        forall|i: int|
            0 < i < merged(cs, st, from, to).len() ==> (#[trigger] merged(cs, st, from, to)[i]).1
                != merged(cs, st, from, to)[i - 1].1,
    decreases to - from,
{
    let all = Seq::new((to - from) as nat, |i: int| (cs[from + i], st[from + i]));
    if to <= from {
        assert(all =~= Seq::<(char, S)>::empty());
    } else {
        let i = to - 1;
        styles_survive_the_break(cs, st, from, i as nat);
        let before = merged(cs, st, from, i as nat);
        let runs = merged(cs, st, from, to);
        let one = (cs[i], st[i]);
        assert(all =~= styled(before).push(one));
        if before.len() > 0 && before.last().1 == st[i] {
            assert(runs.drop_last() =~= before.drop_last());
            assert(styled(runs) =~= styled(before).push(one));
        } else {
            assert(runs.drop_last() =~= before);
            assert(styled(runs) =~= styled(before).push(one));
        }
    }
}

} // verus!
