//! Text as a sequence of characters: the handful of operations everything
//! else is phrased in.

use vstd::prelude::*;
use vstd::string::*;

verus! {

/// The characters of each text in `v`.
pub open spec fn texts(v: Seq<String>) -> Seq<Seq<char>> {
    Seq::new(v.len(), |i: int| v[i]@)
}

pub proof fn lemma_texts_push(v: Seq<String>, s: String)
    ensures
        texts(v.push(s)) == texts(v).push(s@),
{
    assert(texts(v.push(s)) =~= texts(v).push(s@));
}

/// `s` goes on the end of `v`.
pub fn put(v: &mut Vec<String>, s: &str)
    ensures
        texts(final(v)@) == texts(old(v)@).push(s@),
{
    let t = s.to_owned();
    proof {
        lemma_texts_push(v@, t);
    }
    v.push(t);
}

/// No texts.
pub fn none() -> (v: Vec<String>)
    ensures
        texts(v@) == Seq::<Seq<char>>::empty(),
{
    let v: Vec<String> = Vec::new();
    assert(texts(v@) =~= Seq::<Seq<char>>::empty());
    v
}

/// How many bytes a text takes.
pub open spec fn size(s: Seq<char>) -> usize {
    vstd::utf8::encode_utf8(s).len() as usize
}

/// The characters of `s`, in order.
pub fn chars_of(s: &str) -> (v: Vec<char>)
    ensures
        v@ == s@,
{
    let mut v: Vec<char> = Vec::new();
    for c in it: s.chars()
        invariant
            v@ == it.seq().take(it.index() as int),
            it.seq() == s@,
    {
        v.push(c);
    }
    v
}

/// The characters `v[from..to]` as a text.
pub fn slice_text(v: &Vec<char>, from: usize, to: usize) -> (s: String)
    requires
        from <= to <= v.len(),
    ensures
        s@ == v@.subrange(from as int, to as int),
{
    let mut s = String::new();
    let mut i: usize = from;
    while i < to
        invariant
            from <= i <= to <= v.len(),
            s@ == v@.subrange(from as int, i as int),
        decreases to - i,
    {
        s.push(v[i]);
        i = i + 1;
    }
    s
}

/// Whether two texts hold the same characters.
pub fn same(a: &str, b: &str) -> (r: bool)
    ensures
        r == (a@ == b@),
{
    a.to_owned() == b.to_owned()
}

/// Whether some text in `v` holds exactly the characters of `s`.
pub fn one_of(s: &str, v: &Vec<String>) -> (r: bool)
    ensures
        r == texts(v@).contains(s@),
{
    let mut i: usize = 0;
    while i < v.len()
        invariant
            i <= v.len(),
            forall|k: int| 0 <= k < i ==> #[trigger] texts(v@)[k] != s@,
        decreases v.len() - i,
    {
        if same(v[i].as_str(), s) {
            assert(texts(v@)[i as int] == s@);
            return true;
        }
        i = i + 1;
    }
    false
}

// ---------------------------------------------------------------------
// White space
// ---------------------------------------------------------------------

/// The characters with Unicode's `White_Space` property.
pub open spec fn white(c: char) -> bool {
    let u = c as u32;
    ||| 0x09 <= u <= 0x0d
    ||| u == 0x20
    ||| u == 0x85
    ||| u == 0xa0
    ||| u == 0x1680
    ||| 0x2000 <= u <= 0x200a
    ||| u == 0x2028
    ||| u == 0x2029
    ||| u == 0x202f
    ||| u == 0x205f
    ||| u == 0x3000
}

pub fn is_white(c: char) -> (r: bool)
    ensures
        r == white(c),
{
    let u: u32 = c as u32;
    (0x09 <= u && u <= 0x0d) || u == 0x20 || u == 0x85 || u == 0xa0 || u == 0x1680 || (0x2000 <= u
        && u <= 0x200a) || u == 0x2028 || u == 0x2029 || u == 0x202f || u == 0x205f || u == 0x3000
}

/// `s` without its leading white space.
pub open spec fn trimmed_start(s: Seq<char>) -> Seq<char>
    decreases s.len(),
{
    if s.len() > 0 && white(s[0]) {
        trimmed_start(s.skip(1))
    } else {
        s
    }
}

/// `s` without its trailing white space.
pub open spec fn trimmed_end(s: Seq<char>) -> Seq<char>
    decreases s.len(),
{
    if s.len() > 0 && white(s.last()) {
        trimmed_end(s.drop_last())
    } else {
        s
    }
}

/// `s` without white space at either end.
pub open spec fn trimmed(s: Seq<char>) -> Seq<char> {
    trimmed_end(trimmed_start(s))
}

/// How many characters of `v` are leading white space.
fn white_prefix(v: &Vec<char>) -> (i: usize)
    ensures
        i <= v.len(),
        v@.skip(i as int) == trimmed_start(v@),
{
    let mut i: usize = 0;
    assert(v@.skip(0) =~= v@);
    while i < v.len() && is_white(v[i])
        invariant
            i <= v.len(),
            trimmed_start(v@.skip(i as int)) == trimmed_start(v@),
        decreases v.len() - i,
    {
        assert(v@.skip(i as int).skip(1) =~= v@.skip(i + 1));
        i = i + 1;
    }
    i
}

/// Where the trailing white space of `v[from..]` begins.
fn white_suffix(v: &Vec<char>, from: usize) -> (j: usize)
    requires
        from <= v.len(),
    ensures
        from <= j <= v.len(),
        v@.subrange(from as int, j as int) == trimmed_end(v@.skip(from as int)),
{
    let mut j: usize = v.len();
    assert(v@.subrange(from as int, j as int) =~= v@.skip(from as int));
    while j > from && is_white(v[j - 1])
        invariant
            from <= j <= v.len(),
            trimmed_end(v@.subrange(from as int, j as int)) == trimmed_end(v@.skip(from as int)),
        decreases j,
    {
        assert(v@.subrange(from as int, j as int).drop_last() =~= v@.subrange(
            from as int,
            j - 1,
        ));
        j = j - 1;
    }
    j
}

pub fn trim(s: &str) -> (r: String)
    ensures
        r@ == trimmed(s@),
{
    let v = chars_of(s);
    let i: usize = white_prefix(&v);
    let j: usize = white_suffix(&v, i);
    slice_text(&v, i, j)
}

pub fn trim_start(s: &str) -> (r: String)
    ensures
        r@ == trimmed_start(s@),
{
    let v = chars_of(s);
    let i: usize = white_prefix(&v);
    let r = slice_text(&v, i, v.len());
    assert(v@.subrange(i as int, v@.len() as int) =~= v@.skip(i as int));
    r
}

pub fn trim_end(s: &str) -> (r: String)
    ensures
        r@ == trimmed_end(s@),
{
    let v = chars_of(s);
    let j: usize = white_suffix(&v, 0);
    assert(v@.skip(0) =~= v@);
    slice_text(&v, 0, j)
}

/// `s` without the copies of `c` it begins with.
pub open spec fn without_leading(s: Seq<char>, c: char) -> Seq<char>
    decreases s.len(),
{
    if s.len() > 0 && s[0] == c {
        without_leading(s.skip(1), c)
    } else {
        s
    }
}

pub fn trim_leading(s: &str, c: char) -> (r: String)
    ensures
        r@ == without_leading(s@, c),
{
    let v = chars_of(s);
    let mut i: usize = 0;
    assert(v@.skip(0) =~= v@);
    while i < v.len() && v[i] == c
        invariant
            i <= v.len(),
            without_leading(v@.skip(i as int), c) == without_leading(v@, c),
        decreases v.len() - i,
    {
        assert(v@.skip(i as int).skip(1) =~= v@.skip(i + 1));
        i = i + 1;
    }
    let r = slice_text(&v, i, v.len());
    assert(v@.subrange(i as int, v@.len() as int) =~= v@.skip(i as int));
    r
}

/// `s` without the copies of `c` it ends with.
pub open spec fn without_trailing(s: Seq<char>, c: char) -> Seq<char>
    decreases s.len(),
{
    if s.len() > 0 && s.last() == c {
        without_trailing(s.drop_last(), c)
    } else {
        s
    }
}

pub fn trim_trailing(s: &str, c: char) -> (r: String)
    ensures
        r@ == without_trailing(s@, c),
{
    let v = chars_of(s);
    let mut j: usize = v.len();
    assert(v@.take(j as int) =~= v@);
    while j > 0 && v[j - 1] == c
        invariant
            j <= v.len(),
            without_trailing(v@.take(j as int), c) == without_trailing(v@, c),
        decreases j,
    {
        assert(v@.take(j as int).drop_last() =~= v@.take(j - 1));
        j = j - 1;
    }
    let r = slice_text(&v, 0, j);
    assert(v@.subrange(0, j as int) =~= v@.take(j as int));
    r
}

// ---------------------------------------------------------------------
// Splitting and joining
// ---------------------------------------------------------------------

/// The index of the first `c` in `s`, or `s.len()` if there is none.
pub open spec fn first(s: Seq<char>, c: char) -> nat
    decreases s.len(),
{
    if s.len() == 0 || s[0] == c {
        0
    } else {
        1 + first(s.skip(1), c)
    }
}

pub proof fn lemma_first(s: Seq<char>, c: char)
    ensures
        first(s, c) <= s.len(),
        first(s, c) < s.len() ==> s[first(s, c) as int] == c,
        forall|k: int| 0 <= k < first(s, c) ==> s[k] != c,
    decreases s.len(),
{
    if s.len() > 0 && s[0] != c {
        lemma_first(s.skip(1), c);
        assert forall|k: int| 0 <= k < first(s, c) implies s[k] != c by {
            if k > 0 {
                assert(s.skip(1)[k - 1] == s[k]);
            }
        }
    }
}

/// The index of the first `c` at or after `from`, counted from `from`.
pub fn find_char(v: &Vec<char>, from: usize, c: char) -> (n: usize)
    requires
        from <= v.len(),
    ensures
        n == first(v@.skip(from as int), c),
        from + n <= v.len(),
{
    let mut i: usize = from;
    while i < v.len() && v[i] != c
        invariant
            from <= i <= v.len(),
            first(v@.skip(from as int), c) == (i - from) + first(v@.skip(i as int), c),
        decreases v.len() - i,
    {
        assert(v@.skip(i as int).skip(1) =~= v@.skip(i + 1));
        i = i + 1;
    }
    i - from
}

/// The pieces of `s` between copies of `c`; always at least one.
pub open spec fn split(s: Seq<char>, c: char) -> Seq<Seq<char>>
    decreases s.len(),
{
    let n = first(s, c);
    if n >= s.len() {
        seq![s]
    } else {
        seq![s.take(n as int)] + split(s.skip(n as int + 1), c)
    }
}

pub fn split_on(s: &str, c: char) -> (out: Vec<String>)
    ensures
        texts(out@) == split(s@, c),
        out.len() >= 1,
{
    let v = chars_of(s);
    let mut out: Vec<String> = Vec::new();
    let mut b: usize = 0;
    assert(v@.skip(0) =~= v@);
    assert(texts(out@) =~= Seq::<Seq<char>>::empty());
    loop
        invariant
            b <= v.len(),
            texts(out@) + split(v@.skip(b as int), c) == split(v@, c),
            v@ == s@,
        decreases v.len() - b,
    {
        let n: usize = find_char(&v, b, c);
        let piece = slice_text(&v, b, b + n);
        proof {
            lemma_texts_push(out@, piece);
        }
        if b + n == v.len() {
            assert(piece@ =~= v@.skip(b as int));
            assert(texts(out@).push(piece@) =~= texts(out@) + seq![piece@]);
            out.push(piece);
            return out;
        }
        assert(piece@ =~= v@.skip(b as int).take(n as int));
        assert(v@.skip(b as int).skip(n + 1) =~= v@.skip(b + n + 1));
        assert(texts(out@) + (seq![piece@] + split(v@.skip(b + n + 1), c)) =~= texts(out@).push(
            piece@,
        ) + split(v@.skip(b + n + 1), c));
        out.push(piece);
        b = b + n + 1;
    }
}

/// What stands before the first `c` and what stands after it, if there is one.
pub open spec fn cut(s: Seq<char>, c: char) -> Option<(Seq<char>, Seq<char>)> {
    let n = first(s, c);
    if n >= s.len() {
        None
    } else {
        Some((s.take(n as int), s.skip(n as int + 1)))
    }
}

pub open spec fn pair_view(p: Option<(String, String)>) -> Option<(Seq<char>, Seq<char>)> {
    match p {
        None => None,
        Some((a, b)) => Some((a@, b@)),
    }
}

pub fn split_once(s: &str, c: char) -> (r: Option<(String, String)>)
    ensures
        pair_view(r) == cut(s@, c),
{
    let v = chars_of(s);
    let n: usize = find_char(&v, 0, c);
    assert(v@.skip(0) =~= v@);
    if n == v.len() {
        None
    } else {
        let a = slice_text(&v, 0, n);
        let b = slice_text(&v, n + 1, v.len());
        assert(a@ =~= s@.take(n as int));
        assert(b@ =~= s@.skip(n + 1));
        Some((a, b))
    }
}

/// A line without the carriage return that a line feed may follow.
pub open spec fn without_cr(s: Seq<char>) -> Seq<char> {
    if s.len() > 0 && s.last() == '\r' {
        s.drop_last()
    } else {
        s
    }
}

/// The lines of `s`: each ends at a line feed, with or without a carriage
/// return before it, or at the end of the text.
pub open spec fn lines(s: Seq<char>) -> Seq<Seq<char>>
    decreases s.len(),
{
    let n = first(s, '\n');
    if s.len() == 0 {
        seq![]
    } else if n >= s.len() {
        seq![s]
    } else {
        seq![without_cr(s.take(n as int))] + lines(s.skip(n as int + 1))
    }
}

pub fn lines_of(s: &str) -> (out: Vec<String>)
    ensures
        texts(out@) == lines(s@),
{
    let v = chars_of(s);
    let mut out: Vec<String> = Vec::new();
    let mut b: usize = 0;
    assert(v@.skip(0) =~= v@);
    assert(texts(out@) =~= Seq::<Seq<char>>::empty());
    assert(texts(out@) + lines(v@) =~= lines(v@));
    while b < v.len()
        invariant
            b <= v.len(),
            texts(out@) + lines(v@.skip(b as int)) == lines(v@),
            v@ == s@,
        decreases v.len() - b,
    {
        let n: usize = find_char(&v, b, '\n');
        if b + n == v.len() {
            let piece = slice_text(&v, b, b + n);
            proof {
                lemma_texts_push(out@, piece);
            }
            assert(piece@ =~= v@.skip(b as int));
            assert(texts(out@).push(piece@) =~= texts(out@) + seq![piece@]);
            out.push(piece);
            return out;
        }
        let cr: bool = n > 0 && v[b + n - 1] == '\r';
        let end: usize = if cr {
            b + n - 1
        } else {
            b + n
        };
        let piece = slice_text(&v, b, end);
        proof {
            lemma_texts_push(out@, piece);
            let whole = v@.skip(b as int).take(n as int);
            assert(cr ==> piece@ =~= whole.drop_last());
            assert(!cr ==> piece@ =~= whole);
            assert(n > 0 ==> whole.last() == v@[b + n - 1]);
            assert(piece@ == without_cr(whole));
        }
        assert(v@.skip(b as int).skip(n + 1) =~= v@.skip(b + n + 1));
        assert(texts(out@) + (seq![piece@] + lines(v@.skip(b + n + 1))) =~= texts(out@).push(piece@)
            + lines(v@.skip(b + n + 1)));
        out.push(piece);
        b = b + n + 1;
    }
    assert(v@.skip(b as int) =~= Seq::<char>::empty());
    assert(lines(v@.skip(b as int)) =~= Seq::<Seq<char>>::empty());
    assert(texts(out@) =~= texts(out@) + lines(v@.skip(b as int)));
    out
}

/// How many characters `s` begins with that are not white space.
pub open spec fn word_len(s: Seq<char>) -> nat
    decreases s.len(),
{
    if s.len() == 0 || white(s[0]) {
        0
    } else {
        1 + word_len(s.skip(1))
    }
}

pub proof fn lemma_word_len(s: Seq<char>)
    ensures
        word_len(s) <= s.len(),
    decreases s.len(),
{
    if s.len() > 0 && !white(s[0]) {
        lemma_word_len(s.skip(1));
    }
}

/// The runs of `s` that hold no white space.
pub open spec fn words(s: Seq<char>) -> Seq<Seq<char>>
    decreases s.len(),
{
    if s.len() == 0 {
        seq![]
    } else if white(s[0]) {
        words(s.skip(1))
    } else {
        let n = 1 + word_len(s.skip(1));
        proof {
            lemma_word_len(s.skip(1));
        }
        seq![s.take(n as int)] + words(s.skip(n as int))
    }
}

pub fn words_of(s: &str) -> (out: Vec<String>)
    ensures
        texts(out@) == words(s@),
{
    let v = chars_of(s);
    let mut out: Vec<String> = Vec::new();
    let mut b: usize = 0;
    assert(v@.skip(0) =~= v@);
    assert(texts(out@) =~= Seq::<Seq<char>>::empty());
    assert(texts(out@) + words(v@) =~= words(v@));
    while b < v.len()
        invariant
            b <= v.len(),
            texts(out@) + words(v@.skip(b as int)) == words(v@),
            v@ == s@,
        decreases v.len() - b,
    {
        if is_white(v[b]) {
            assert(v@.skip(b as int).skip(1) =~= v@.skip(b + 1));
            b = b + 1;
        } else {
            let mut e: usize = b + 1;
            let ghost rest = v@.skip(b as int).skip(1);
            assert(v@.skip(b as int).skip(1) =~= v@.skip(e as int));
            while e < v.len() && !is_white(v[e])
                invariant
                    b < e <= v.len(),
                    word_len(rest) == (e - b - 1) + word_len(v@.skip(e as int)),
                decreases v.len() - e,
            {
                assert(v@.skip(e as int).skip(1) =~= v@.skip(e + 1));
                e = e + 1;
            }
            let piece = slice_text(&v, b, e);
            proof {
                lemma_texts_push(out@, piece);
                let n = 1 + word_len(rest);
                assert(n == e - b);
                assert(piece@ =~= v@.skip(b as int).take(n as int));
                assert(v@.skip(b as int).skip(n as int) =~= v@.skip(e as int));
                assert(texts(out@) + (seq![piece@] + words(v@.skip(e as int))) =~= texts(
                    out@,
                ).push(piece@) + words(v@.skip(e as int)));
            }
            out.push(piece);
            b = e;
        }
    }
    assert(v@.skip(b as int) =~= Seq::<char>::empty());
    assert(texts(out@) =~= texts(out@) + words(v@.skip(b as int)));
    out
}

/// `parts` one after the other, with `sep` between neighbours.
pub open spec fn joined(parts: Seq<Seq<char>>, sep: Seq<char>) -> Seq<char>
    decreases parts.len(),
{
    if parts.len() == 0 {
        seq![]
    } else if parts.len() == 1 {
        parts[0]
    } else {
        joined(parts.drop_last(), sep) + sep + parts.last()
    }
}

pub fn join(parts: &Vec<String>, sep: &str) -> (r: String)
    ensures
        r@ == joined(texts(parts@), sep@),
{
    if parts.len() == 0 {
        assert(texts(parts@).len() == 0);
        return String::new();
    }
    let ghost all = texts(parts@);
    let mut r = parts[0].clone();
    let mut i: usize = 1;
    assert(all.take(1) =~= seq![parts@[0]@]);
    while i < parts.len()
        invariant
            1 <= i <= parts.len(),
            all == texts(parts@),
            r@ == joined(all.take(i as int), sep@),
        decreases parts.len() - i,
    {
        r.append(sep);
        r.append(parts[i].as_str());
        assert(all.take(i + 1).drop_last() =~= all.take(i as int));
        assert(all.take(i + 1).last() == parts@[i as int]@);
        i = i + 1;
    }
    assert(all.take(i as int) =~= all);
    r
}

// ---------------------------------------------------------------------
// Searching and replacing
// ---------------------------------------------------------------------

/// `p` stands in `s` at index `i`.
pub open spec fn occurs_at(s: Seq<char>, p: Seq<char>, i: int) -> bool {
    0 <= i && i + p.len() <= s.len() && s.subrange(i, i + p.len()) == p
}

/// `p` stands somewhere in `s`.
pub open spec fn has(s: Seq<char>, p: Seq<char>) -> bool {
    exists|i: int| occurs_at(s, p, i)
}

/// The first index at or after `from` at which `p` stands in `s`.
pub open spec fn find_from(s: Seq<char>, p: Seq<char>, from: nat) -> Option<nat>
    decreases s.len() + 1 - from,
{
    if from + p.len() > s.len() {
        None
    } else if occurs_at(s, p, from as int) {
        Some(from)
    } else {
        find_from(s, p, from + 1)
    }
}

pub proof fn lemma_find_from(s: Seq<char>, p: Seq<char>, from: nat)
    ensures
        match find_from(s, p, from) {
            Some(i) => from <= i && occurs_at(s, p, i as int) && forall|k: int|
                from <= k < i ==> !occurs_at(s, p, k),
            None => forall|k: int| from <= k ==> !occurs_at(s, p, k),
        },
    decreases s.len() + 1 - from,
{
    if from + p.len() > s.len() {
    } else if occurs_at(s, p, from as int) {
    } else {
        lemma_find_from(s, p, from + 1);
    }
}

/// Whether `p` stands in `s` at index `i`.
pub fn stands_at(s: &Vec<char>, p: &Vec<char>, i: usize) -> (r: bool)
    ensures
        r == occurs_at(s@, p@, i as int),
{
    if p.len() > s.len() || i > s.len() - p.len() {
        return false;
    }
    let mut k: usize = 0;
    while k < p.len()
        invariant
            k <= p.len(),
            i + p.len() <= s.len(),
            forall|m: int| 0 <= m < k ==> s@[i + m] == p@[m],
        decreases p.len() - k,
    {
        if s[i + k] != p[k] {
            assert(s@.subrange(i as int, i + p@.len())[k as int] == s@[i + k]);
            return false;
        }
        k = k + 1;
    }
    assert(s@.subrange(i as int, i + p@.len()) =~= p@);
    true
}

/// The first index at or after `from` at which `p` stands in `s`.
pub fn find_at(s: &Vec<char>, p: &Vec<char>, from: usize) -> (r: Option<usize>)
    ensures
        match r {
            Some(i) => find_from(s@, p@, from as nat) == Some(i as nat) && i + p.len() <= s.len(),
            None => find_from(s@, p@, from as nat) is None,
        },
{
    let mut i: usize = from;
    while p.len() <= s.len() && i <= s.len() - p.len()
        invariant
            from <= i,
            find_from(s@, p@, from as nat) == find_from(s@, p@, i as nat),
        decreases s.len() + 1 - i,
    {
        if stands_at(s, p, i) {
            return Some(i);
        }
        if i == s.len() {
            assert(find_from(s@, p@, (i + 1) as nat) is None);
            return None;
        }
        i = i + 1;
    }
    None
}

pub fn contains(s: &str, p: &str) -> (r: bool)
    ensures
        r == has(s@, p@),
{
    let v = chars_of(s);
    let q = chars_of(p);
    proof {
        lemma_find_from(s@, p@, 0);
    }
    match find_at(&v, &q, 0) {
        Some(i) => {
            assert(occurs_at(s@, p@, i as int));
            true
        },
        None => false,
    }
}

pub open spec fn starts(s: Seq<char>, p: Seq<char>) -> bool {
    occurs_at(s, p, 0)
}

pub fn starts_with(s: &str, p: &str) -> (r: bool)
    ensures
        r == starts(s@, p@),
{
    stands_at(&chars_of(s), &chars_of(p), 0)
}

pub open spec fn ends(s: Seq<char>, p: Seq<char>) -> bool {
    occurs_at(s, p, s.len() - p.len())
}

pub fn ends_with(s: &str, p: &str) -> (r: bool)
    ensures
        r == ends(s@, p@),
{
    let v = chars_of(s);
    let q = chars_of(p);
    q.len() <= v.len() && stands_at(&v, &q, v.len() - q.len())
}

/// `s` after `p`, if it begins with it.
pub open spec fn after_prefix(s: Seq<char>, p: Seq<char>) -> Option<Seq<char>> {
    if starts(s, p) {
        Some(s.skip(p.len() as int))
    } else {
        None
    }
}

pub open spec fn text_view(o: Option<String>) -> Option<Seq<char>> {
    match o {
        None => None,
        Some(s) => Some(s@),
    }
}

pub fn strip_prefix(s: &str, p: &str) -> (r: Option<String>)
    ensures
        text_view(r) == after_prefix(s@, p@),
{
    let v = chars_of(s);
    let q = chars_of(p);
    if stands_at(&v, &q, 0) {
        let r = slice_text(&v, q.len(), v.len());
        assert(r@ =~= s@.skip(p@.len() as int));
        Some(r)
    } else {
        None
    }
}

/// How often `p` stands in `s`, counted from the left without overlap.
pub open spec fn occurrences(s: Seq<char>, p: Seq<char>, from: nat) -> nat
    decreases s.len() + 1 - from,
{
    if p.len() == 0 || from > s.len() {
        0
    } else {
        match find_from(s, p, from) {
            None => 0,
            Some(i) => if i >= from && i + p.len() <= s.len() {
                1 + occurrences(s, p, i + p.len())
            } else {
                0
            },
        }
    }
}

pub fn count(s: &Vec<char>, p: &Vec<char>) -> (n: usize)
    ensures
        n == occurrences(s@, p@, 0),
{
    if p.len() == 0 {
        return 0;
    }
    let mut n: usize = 0;
    let mut i: usize = 0;
    loop
        invariant
            p.len() > 0,
            i <= s.len(),
            n <= i,
            occurrences(s@, p@, 0) == n + occurrences(s@, p@, i as nat),
        decreases s.len() - i,
    {
        proof {
            lemma_find_from(s@, p@, i as nat);
        }
        match find_at(s, p, i) {
            None => {
                return n;
            },
            Some(k) => {
                i = k + p.len();
                n = n + 1;
            },
        }
    }
}

/// `s` with every `p` from `from` on replaced by `q`, left to right without
/// overlap.
pub open spec fn replaced(s: Seq<char>, p: Seq<char>, q: Seq<char>, from: nat) -> Seq<char>
    decreases s.len() + 1 - from,
{
    if p.len() == 0 || from > s.len() {
        s.skip(from as int)
    } else {
        match find_from(s, p, from) {
            None => s.skip(from as int),
            Some(i) => if i >= from && i + p.len() <= s.len() {
                s.subrange(from as int, i as int) + q + replaced(s, p, q, i + p.len())
            } else {
                s.skip(from as int)
            },
        }
    }
}

/// `s` with every `p` replaced by `q`; `p` is not empty.
pub fn replace(s: &str, p: &str, q: &str) -> (r: String)
    requires
        p@.len() > 0,
    ensures
        r@ == replaced(s@, p@, q@, 0),
{
    let v = chars_of(s);
    let w = chars_of(p);
    let mut out = String::new();
    let mut i: usize = 0;
    loop
        invariant
            w.len() > 0,
            i <= v.len(),
            v@ == s@,
            w@ == p@,
            out@ + replaced(v@, w@, q@, i as nat) == replaced(s@, p@, q@, 0),
        decreases v.len() - i,
    {
        proof {
            lemma_find_from(v@, w@, i as nat);
        }
        match find_at(&v, &w, i) {
            None => {
                let rest = slice_text(&v, i, v.len());
                assert(rest@ =~= v@.skip(i as int));
                out.append(rest.as_str());
                return out;
            },
            Some(k) => {
                let head = slice_text(&v, i, k);
                let ghost before = out@;
                out.append(head.as_str());
                out.append(q);
                i = k + w.len();
                assert(before + (head@ + q@ + replaced(v@, w@, q@, i as nat)) =~= out@ + replaced(
                    v@,
                    w@,
                    q@,
                    i as nat,
                ));
            },
        }
    }
}

/// `s` with the first `p` replaced by `q`.
pub open spec fn replaced_once(s: Seq<char>, p: Seq<char>, q: Seq<char>) -> Seq<char> {
    match find_from(s, p, 0) {
        None => s,
        Some(i) => s.take(i as int) + q + s.skip(i as int + p.len()),
    }
}

pub fn replace_once(s: &str, p: &str, q: &str) -> (r: String)
    ensures
        r@ == replaced_once(s@, p@, q@),
{
    let v = chars_of(s);
    let w = chars_of(p);
    match find_at(&v, &w, 0) {
        None => s.to_owned(),
        Some(i) => {
            let head = slice_text(&v, 0, i);
            let rest = slice_text(&v, i + w.len(), v.len());
            assert(head@ =~= s@.take(i as int));
            assert(rest@ =~= s@.skip(i + p@.len()));
            head.concat(q).concat(rest.as_str())
        },
    }
}

/// How often `p` matches in `s`: between any two characters and at both ends
/// where it is empty.
pub open spec fn match_count(s: Seq<char>, p: Seq<char>) -> nat {
    if p.len() == 0 {
        s.len() + 1
    } else {
        occurrences(s, p, 0)
    }
}

/// How often `p` matches in `s`.
pub fn count_matches(s: &str, p: &str) -> (n: usize)
    requires
        s@.len() < usize::MAX,
    ensures
        n == match_count(s@, p@),
{
    let v = chars_of(s);
    let w = chars_of(p);
    if w.len() == 0 {
        v.len() + 1
    } else {
        count(&v, &w)
    }
}

/// `q` before, between and after the characters of `s`.
pub open spec fn sprinkled(s: Seq<char>, q: Seq<char>) -> Seq<char>
    decreases s.len(),
{
    if s.len() == 0 {
        q
    } else {
        sprinkled(s.drop_last(), q).push(s.last()) + q
    }
}

/// `s` with every match of `p` replaced by `q`.
pub open spec fn replaced_all(s: Seq<char>, p: Seq<char>, q: Seq<char>) -> Seq<char> {
    if p.len() == 0 {
        sprinkled(s, q)
    } else {
        replaced(s, p, q, 0)
    }
}

pub fn replace_all(s: &str, p: &str, q: &str) -> (r: String)
    ensures
        r@ == replaced_all(s@, p@, q@),
{
    if !p.is_empty() {
        return replace(s, p, q);
    }
    let v = chars_of(s);
    let mut out = q.to_owned();
    let mut i: usize = 0;
    assert(v@.take(0) =~= Seq::<char>::empty());
    while i < v.len()
        invariant
            i <= v.len(),
            out@ == sprinkled(v@.take(i as int), q@),
        decreases v.len() - i,
    {
        out.push(v[i]);
        out.append(q);
        assert(v@.take(i + 1).drop_last() =~= v@.take(i as int));
        i = i + 1;
    }
    assert(v@.take(i as int) =~= v@);
    out
}

// ---------------------------------------------------------------------
// Letters and numbers
// ---------------------------------------------------------------------

pub open spec fn lower_char(c: char) -> char {
    if 'A' <= c <= 'Z' {
        ((c as u8) + 32) as char
    } else {
        c
    }
}

pub open spec fn upper_char(c: char) -> char {
    if 'a' <= c <= 'z' {
        ((c as u8) - 32) as char
    } else {
        c
    }
}

/// `s` with the ASCII capitals made small.
pub open spec fn lowered(s: Seq<char>) -> Seq<char> {
    Seq::new(s.len(), |i: int| lower_char(s[i]))
}

/// A text of ASCII alone.
pub open spec fn is_plain(s: Seq<char>) -> bool {
    forall|i: int| 0 <= i < s.len() ==> (#[trigger] s[i] as u32) < 128
}

/// `s` with the small ASCII letters made capitals.
pub open spec fn raised(s: Seq<char>) -> Seq<char> {
    Seq::new(s.len(), |i: int| upper_char(s[i]))
}

pub fn to_lower(s: &str) -> (r: String)
    ensures
        r@ == lowered(s@),
{
    let v = chars_of(s);
    let mut r = String::new();
    let mut i: usize = 0;
    while i < v.len()
        invariant
            i <= v.len(),
            r@ == lowered(v@).take(i as int),
        decreases v.len() - i,
    {
        let c = v[i];
        let d = if 'A' <= c && c <= 'Z' {
            ((c as u8) + 32) as char
        } else {
            c
        };
        r.push(d);
        assert(lowered(v@).take(i + 1) =~= lowered(v@).take(i as int).push(d));
        i = i + 1;
    }
    assert(lowered(v@).take(i as int) =~= lowered(v@));
    r
}

pub fn to_upper(s: &str) -> (r: String)
    ensures
        r@ == raised(s@),
{
    let v = chars_of(s);
    let mut r = String::new();
    let mut i: usize = 0;
    while i < v.len()
        invariant
            i <= v.len(),
            r@ == raised(v@).take(i as int),
        decreases v.len() - i,
    {
        let c = v[i];
        let d = if 'a' <= c && c <= 'z' {
            ((c as u8) - 32) as char
        } else {
            c
        };
        r.push(d);
        assert(raised(v@).take(i + 1) =~= raised(v@).take(i as int).push(d));
        i = i + 1;
    }
    assert(raised(v@).take(i as int) =~= raised(v@));
    r
}

/// The decimal digit `d`.
pub open spec fn digit(d: nat) -> char {
    (48 + d) as char
}

/// `n` in decimal.
pub open spec fn dec(n: nat) -> Seq<char>
    decreases n,
{
    if n < 10 {
        seq![digit(n)]
    } else {
        dec(n / 10).push(digit(n % 10))
    }
}

pub fn number(n: u64) -> (s: String)
    ensures
        s@ == dec(n as nat),
{
    wide_number(n as u128)
}

pub fn wide_number(n: u128) -> (s: String)
    ensures
        s@ == dec(n as nat),
    decreases n,
{
    let d: u8 = (n % 10) as u8;
    let c = (48 + d) as char;
    let mut s = if n < 10 {
        String::new()
    } else {
        wide_number(n / 10)
    };
    s.push(c);
    assert(n < 10 ==> s@ =~= seq![digit(n as nat)]);
    s
}

/// A number below 0 with its sign.
pub open spec fn signed(n: int) -> Seq<char> {
    if n < 0 {
        "-"@ + dec((-n) as nat)
    } else {
        dec(n as nat)
    }
}

pub fn signed_number(n: i32) -> (s: String)
    ensures
        s@ == signed(n as int),
{
    let wide: i64 = n as i64;
    if wide < 0 {
        String::from_str("-").concat(number((0 - wide) as u64).as_str())
    } else {
        number(wide as u64)
    }
}

pub open spec fn is_digit(c: char) -> bool {
    '0' <= c <= '9'
}

/// The value of a run of decimal digits.
pub open spec fn value(s: Seq<char>) -> nat
    decreases s.len(),
{
    if s.len() == 0 {
        0
    } else {
        value(s.drop_last()) * 10 + (s.last() as nat - 48) as nat
    }
}

/// `s` without the plus sign it may begin with.
pub open spec fn without_plus(s: Seq<char>) -> Seq<char> {
    if s.len() > 0 && s[0] == '+' {
        s.skip(1)
    } else {
        s
    }
}

pub open spec fn all_digits(s: Seq<char>) -> bool {
    forall|i: int| 0 <= i < s.len() ==> is_digit(#[trigger] s[i])
}

/// `s` read as a number of at most `max`: one or more digits, with or without
/// a plus sign in front.
pub open spec fn parsed(s: Seq<char>, max: nat) -> Option<nat> {
    let d = without_plus(s);
    if d.len() > 0 && all_digits(d) && value(d) <= max {
        Some(value(d))
    } else {
        None
    }
}

proof fn lemma_value_grows(s: Seq<char>, i: int)
    requires
        0 <= i <= s.len(),
    ensures
        value(s.take(i)) <= value(s),
    decreases s.len(),
{
    if i == s.len() {
        assert(s.take(i) =~= s);
    } else {
        lemma_value_grows(s.drop_last(), i);
        assert(s.drop_last().take(i) =~= s.take(i));
        assert(value(s.drop_last()) <= value(s.drop_last()) * 10) by (nonlinear_arith);
    }
}

pub fn parse_number(s: &str, max: u64) -> (r: Option<u64>)
    ensures
        match r {
            Some(n) => parsed(s@, max as nat) == Some(n as nat),
            None => parsed(s@, max as nat) is None,
        },
{
    let v = chars_of(s);
    let b: usize = if v.len() > 0 && v[0] == '+' {
        1
    } else {
        0
    };
    let ghost d = v@.skip(b as int);
    assert(v@.skip(0) =~= v@);
    assert(v@ == s@);
    if b == v.len() {
        return None;
    }
    let mut n: u64 = 0;
    let mut i: usize = b;
    assert(d.take(0) =~= Seq::<char>::empty());
    while i < v.len()
        invariant
            b <= i <= v.len(),
            v@ == s@,
            d == v@.skip(b as int),
            n == value(d.take(i - b)),
            n <= max,
            forall|k: int| 0 <= k < i - b ==> is_digit(#[trigger] d[k]),
            d == without_plus(s@),
        decreases v.len() - i,
    {
        let c = v[i];
        assert(d[i - b] == c);
        if !('0' <= c && c <= '9') {
            assert(!is_digit(d[i - b]) && i - b < d.len());
            return None;
        }
        let x: u128 = (n as u128) * 10 + ((c as u8) - 48) as u128;
        proof {
            assert(d.take(i + 1 - b).drop_last() =~= d.take(i - b));
            assert(x == value(d.take(i + 1 - b)));
            lemma_value_grows(d, i + 1 - b);
        }
        if x > max as u128 {
            return None;
        }
        n = x as u64;
        i = i + 1;
    }
    assert(d.take(i - b) =~= d);
    Some(n)
}

proof fn lemma_dec(n: nat)
    ensures
        dec(n).len() >= 1,
        all_digits(dec(n)),
        value(dec(n)) == n,
    decreases n,
{
    if n < 10 {
        assert(seq![digit(n)].drop_last() =~= Seq::<char>::empty());
        assert(value(seq![digit(n)].drop_last()) == 0);
        assert(seq![digit(n)].last() == digit(n));
    } else {
        lemma_dec(n / 10);
        let d = dec(n / 10);
        let c = digit(n % 10);
        assert(d.push(c).drop_last() =~= d);
        assert(is_digit(c));
        assert forall|i: int| 0 <= i < d.push(c).len() implies is_digit(
            #[trigger] d.push(c)[i],
        ) by {
            if i < d.len() {
                assert(d.push(c)[i] == d[i]);
            }
        }
    }
}

/// Ten to the power `k`.
pub open spec fn power_of_ten(k: nat) -> nat
    decreases k,
{
    if k == 0 {
        1
    } else {
        10 * power_of_ten((k - 1) as nat)
    }
}

proof fn lemma_dec_len(n: nat, k: nat)
    requires
        n < power_of_ten(k),
        k >= 1,
    ensures
        dec(n).len() <= k,
    decreases k,
{
    if n >= 10 {
        assert(power_of_ten(k) == 10 * power_of_ten((k - 1) as nat));
        assert(k > 1) by {
            reveal_with_fuel(power_of_ten, 2);
        }
        lemma_dec_len(n / 10, (k - 1) as nat);
    }
}

/// A number of 64 bits takes at most twenty digits.
pub proof fn lemma_digits(n: nat)
    requires
        n <= u64::MAX,
    ensures
        1 <= dec(n).len() <= 20,
{
    assert(power_of_ten(20) == 100000000000000000000) by {
        reveal_with_fuel(power_of_ten, 21);
    }
    lemma_dec_len(n, 20);
}

/// A number that was printed reads back as itself.
pub proof fn printed_numbers_read_back(n: nat)
    ensures
        value(dec(n)) == n,
        forall|max: nat| n <= max ==> #[trigger] parsed(dec(n), max) == Some(n),
{
    lemma_dec(n);
    assert(is_digit(dec(n)[0]));
}

// ---------------------------------------------------------------------
// Order
// ---------------------------------------------------------------------

/// `a` comes no later than `b` in the order of their characters.
pub open spec fn no_later(a: Seq<char>, b: Seq<char>) -> bool
    decreases a.len(),
{
    if a.len() == 0 {
        true
    } else if b.len() == 0 {
        false
    } else if a[0] != b[0] {
        a[0] < b[0]
    } else {
        no_later(a.skip(1), b.skip(1))
    }
}

pub(crate) fn is_no_later(a: &Vec<char>, b: &Vec<char>, i: usize) -> (r: bool)
    requires
        i <= a.len(),
        i <= b.len(),
    ensures
        r == no_later(a@.skip(i as int), b@.skip(i as int)),
    decreases a.len() - i,
{
    if i == a.len() {
        return true;
    }
    if i == b.len() {
        return false;
    }
    assert(a@.skip(i as int)[0] == a@[i as int]);
    assert(b@.skip(i as int)[0] == b@[i as int]);
    if a[i] != b[i] {
        return a[i] < b[i];
    }
    assert(a@.skip(i as int).skip(1) =~= a@.skip(i + 1));
    assert(b@.skip(i as int).skip(1) =~= b@.skip(i + 1));
    is_no_later(a, b, i + 1)
}

/// Of two texts one comes no later than the other.
pub proof fn lemma_no_later_total(a: Seq<char>, b: Seq<char>)
    ensures
        no_later(a, b) || no_later(b, a),
    decreases a.len(),
{
    if a.len() > 0 && b.len() > 0 && a[0] == b[0] {
        lemma_no_later_total(a.skip(1), b.skip(1));
    }
}

/// What comes no later than one that comes no later than a third, comes no later
/// than that.
pub proof fn lemma_no_later_joins(a: Seq<char>, b: Seq<char>, c: Seq<char>)
    requires
        no_later(a, b),
        no_later(b, c),
    ensures
        no_later(a, c),
    decreases a.len(),
{
    if a.len() > 0 && b.len() > 0 && c.len() > 0 && a[0] == b[0] && b[0] == c[0] {
        lemma_no_later_joins(a.skip(1), b.skip(1), c.skip(1));
    }
}

/// Two texts neither of which comes later are one.
pub proof fn lemma_no_later_both(a: Seq<char>, b: Seq<char>)
    requires
        no_later(a, b),
        no_later(b, a),
    ensures
        a == b,
    decreases a.len(),
{
    if a.len() > 0 {
        lemma_no_later_both(a.skip(1), b.skip(1));
        assert(a =~= seq![a[0]] + a.skip(1));
        assert(b =~= seq![b[0]] + b.skip(1));
    } else {
        assert(b =~= a);
    }
}

// ---------------------------------------------------------------------
// Laws
// ---------------------------------------------------------------------

/// How many characters stand before part `i` where parts are joined by a
/// separator of `gap` characters.
pub open spec fn place(parts: Seq<Seq<char>>, gap: nat, i: nat) -> nat
    decreases i,
{
    if i == 0 {
        0
    } else {
        place(parts, gap, (i - 1) as nat) + parts[i - 1].len() + gap
    }
}

proof fn lemma_place_same(a: Seq<Seq<char>>, b: Seq<Seq<char>>, gap: nat, i: nat)
    requires
        i <= a.len(),
        i <= b.len(),
        forall|k: int| 0 <= k < i ==> a[k] == b[k],
    ensures
        place(a, gap, i) == place(b, gap, i),
    decreases i,
{
    if i > 0 {
        lemma_place_same(a, b, gap, (i - 1) as nat);
    }
}

proof fn lemma_joined_len(parts: Seq<Seq<char>>, sep: Seq<char>)
    requires
        parts.len() > 0,
    ensures
        joined(parts, sep).len() + sep.len() == place(parts, sep.len(), parts.len()),
    decreases parts.len(),
{
    if parts.len() == 1 {
        assert(place(parts, sep.len(), 1) == place(parts, sep.len(), 0) + parts[0].len()
            + sep.len());
    } else {
        let front = parts.drop_last();
        lemma_joined_len(front, sep);
        lemma_place_same(front, parts, sep.len(), front.len());
    }
}

/// Where texts are joined each part stands whole behind those before it, a
/// separator stands between neighbours, and there is nothing else.
pub proof fn joined_parts_stand_in_order(parts: Seq<Seq<char>>, sep: Seq<char>, i: nat)
    requires
        i < parts.len(),
    ensures
        occurs_at(joined(parts, sep), parts[i as int], place(parts, sep.len(), i) as int),
        i + 1 < parts.len() ==> occurs_at(
            joined(parts, sep),
            sep,
            (place(parts, sep.len(), i) + parts[i as int].len()) as int,
        ),
        joined(parts, sep).len() + sep.len() == place(parts, sep.len(), parts.len()),
    decreases parts.len(),
{
    let s = joined(parts, sep);
    lemma_joined_len(parts, sep);
    if parts.len() == 1 {
        assert(s.subrange(0, parts[0].len() as int) =~= parts[0]);
    } else {
        let front = parts.drop_last();
        let t = joined(front, sep);
        lemma_joined_len(front, sep);
        lemma_place_same(front, parts, sep.len(), front.len());
        if i < front.len() {
            joined_parts_stand_in_order(front, sep, i);
            lemma_place_same(front, parts, sep.len(), i);
            let at = place(parts, sep.len(), i) as int;
            let p = parts[i as int];
            assert(s.subrange(at, at + p.len()) =~= t.subrange(at, at + p.len()));
            if i + 1 < front.len() {
                let b = at + p.len();
                assert(s.subrange(b, b + sep.len()) =~= t.subrange(b, b + sep.len()));
            } else {
                let b = at + p.len();
                assert(b == t.len()) by {
                    assert(place(front, sep.len(), front.len()) == place(front, sep.len(), i)
                        + p.len() + sep.len());
                }
                assert(s.subrange(b, b + sep.len()) =~= sep);
            }
        } else {
            let at = (t.len() + sep.len()) as int;
            assert(s.subrange(at, at + parts.last().len()) =~= parts.last());
        }
    }
}

/// A text with a part before it in the same list of parts begins behind its end.
pub proof fn lemma_place_apart(parts: Seq<Seq<char>>, gap: nat, i: nat, j: nat)
    requires
        i < j <= parts.len(),
    ensures
        place(parts, gap, i) + parts[i as int].len() + gap <= place(parts, gap, j),
    decreases j,
{
    if i < j - 1 {
        lemma_place_apart(parts, gap, i, (j - 1) as nat);
    }
}

/// One part in front of others, joined.
pub proof fn lemma_joined_front(a: Seq<char>, parts: Seq<Seq<char>>, sep: Seq<char>)
    requires
        parts.len() > 0,
    ensures
        joined(seq![a] + parts, sep) == a + sep + joined(parts, sep),
    decreases parts.len(),
{
    let all = seq![a] + parts;
    if parts.len() == 1 {
        assert(all.drop_last() =~= seq![a]);
        assert(all.last() == parts[0]);
        assert(joined(seq![a], sep) == a);
        assert(joined(all, sep) =~= a + sep + parts[0]);
    } else {
        assert(all.drop_last() =~= seq![a] + parts.drop_last());
        lemma_joined_front(a, parts.drop_last(), sep);
        assert(joined(all, sep) =~= a + sep + joined(parts, sep));
    }
}

pub open spec fn all_white(s: Seq<char>) -> bool {
    forall|i: int| 0 <= i < s.len() ==> white(#[trigger] s[i])
}

proof fn lemma_trimmed_start(s: Seq<char>) -> (n: int)
    ensures
        0 <= n <= s.len(),
        trimmed_start(s) == s.skip(n),
        all_white(s.take(n)),
        n < s.len() ==> !white(s[n]),
    decreases s.len(),
{
    if s.len() > 0 && white(s[0]) {
        let m = lemma_trimmed_start(s.skip(1));
        assert(s.skip(1).skip(m) =~= s.skip(m + 1));
        assert forall|i: int| 0 <= i < m + 1 implies white(#[trigger] s.take(m + 1)[i]) by {
            if i > 0 {
                assert(s.skip(1).take(m)[i - 1] == s[i]);
            }
        }
        m + 1
    } else {
        assert(s.skip(0) =~= s);
        0
    }
}

proof fn lemma_trimmed_end(s: Seq<char>) -> (n: int)
    ensures
        0 <= n <= s.len(),
        trimmed_end(s) == s.take(n),
        all_white(s.skip(n)),
        n > 0 ==> !white(s[n - 1]),
    decreases s.len(),
{
    if s.len() > 0 && white(s.last()) {
        let m = lemma_trimmed_end(s.drop_last());
        assert(s.drop_last().take(m) =~= s.take(m));
        assert forall|i: int| 0 <= i < s.len() - m implies white(#[trigger] s.skip(m)[i]) by {
            if i < s.len() - m - 1 {
                assert(s.drop_last().skip(m)[i] == s[m + i]);
            }
        }
        m
    } else {
        assert(s.take(s.len() as int) =~= s);
        s.len() as int
    }
}

/// Trimming takes white space off both ends, all of it, and nothing else.
pub proof fn trimming_takes_only_white_space(s: Seq<char>)
    ensures
        exists|a: int, b: int|
            0 <= a <= b <= s.len() && trimmed(s) == #[trigger] s.subrange(a, b) && all_white(
                s.take(a),
            ) && all_white(s.skip(b)),
        trimmed(s).len() > 0 ==> !white(trimmed(s)[0]) && !white(trimmed(s).last()),
{
    let a = lemma_trimmed_start(s);
    let t = s.skip(a);
    let n = lemma_trimmed_end(t);
    assert(trimmed(s) =~= s.subrange(a, a + n));
    assert forall|i: int| 0 <= i < s.skip(a + n).len() implies white(
        #[trigger] s.skip(a + n)[i],
    ) by {
        assert(t.skip(n)[i] == s[a + n + i]);
    }
    if n > 0 {
        assert(!white(t[n - 1]));
        assert(t[0] == s[a]);
    }
}

/// Capitals are the same letters: only the small ASCII ones change, and to their
/// own capital; and the other way round.
pub proof fn letters_keep_their_place(s: Seq<char>)
    ensures
        raised(s).len() == s.len(),
        lowered(s).len() == s.len(),
        forall|i: int|
            #![trigger raised(s)[i]]
            0 <= i < s.len() ==> raised(s)[i] as int == (if 97 <= s[i] as int <= 122 {
                s[i] as int - 32
            } else {
                s[i] as int
            }),
        forall|i: int|
            #![trigger lowered(s)[i]]
            0 <= i < s.len() ==> lowered(s)[i] as int == (if 65 <= s[i] as int <= 90 {
                s[i] as int + 32
            } else {
                s[i] as int
            }),
{
}

/// Pieces joined by what they were split at are the text again, and no piece
/// holds it.
pub proof fn split_pieces_join_again(s: Seq<char>, c: char)
    ensures
        split(s, c).len() > 0,
        joined(split(s, c), seq![c]) == s,
        forall|i: int| 0 <= i < split(s, c).len() ==> !(#[trigger] split(s, c)[i]).contains(c),
    decreases s.len(),
{
    let n = first(s, c) as int;
    lemma_first(s, c);
    if n < s.len() {
        let rest = s.skip(n + 1);
        split_pieces_join_again(rest, c);
        lemma_joined_front(s.take(n), split(rest, c), seq![c]);
        assert(s.take(n) + seq![c] + rest =~= s);
        assert forall|i: int| 0 <= i < split(s, c).len() implies !(
        #[trigger] split(s, c)[i]).contains(c) by {
            if i > 0 {
                assert(split(s, c)[i] == split(rest, c)[i - 1]);
            }
        }
    }
}

/// In `piece` with `p` behind it, `p` stands nowhere before the end.
pub open spec fn ends_at_first(piece: Seq<char>, p: Seq<char>) -> bool {
    forall|k: int| k < piece.len() ==> !#[trigger] occurs_at(piece + p, p, k)
}

/// `pieces` are what stands between the copies of `p` in `s`, the copies taken
/// from the left.
pub open spec fn pieces_of(s: Seq<char>, p: Seq<char>, pieces: Seq<Seq<char>>) -> bool {
    &&& pieces.len() > 0
    &&& joined(pieces, p) == s
    &&& forall|i: int| 0 <= i < pieces.len() - 1 ==> ends_at_first(#[trigger] pieces[i], p)
    &&& has(pieces.last(), p) == false
}

proof fn lemma_occurs_in_part(s: Seq<char>, p: Seq<char>, from: int, to: int, k: int)
    requires
        0 <= from <= to <= s.len(),
        occurs_at(s.subrange(from, to), p, k),
    ensures
        occurs_at(s, p, from + k),
{
    assert(s.subrange(from, to).subrange(k, k + p.len()) =~= s.subrange(
        from + k,
        from + k + p.len(),
    ));
}

proof fn lemma_head_whole(s: Seq<char>, p: Seq<char>, from: int, i: int)
    requires
        0 <= from <= i,
        occurs_at(s, p, i),
    ensures
        s.subrange(from, i) + p == s.subrange(from, i + p.len()),
        s.subrange(from, i) + p + s.skip(i + p.len()) == s.skip(from),
{
    let end = i + p.len();
    let q = s.subrange(i, end);
    assert(q == p);
    assert(s.subrange(from, i) + q =~= s.subrange(from, end));
    assert(s.subrange(from, end) + s.skip(end) =~= s.skip(from));
}

proof fn lemma_head_ends(s: Seq<char>, p: Seq<char>, from: int, i: int)
    requires
        0 <= from <= i,
        occurs_at(s, p, i),
        forall|k: int| from <= k < i ==> !#[trigger] occurs_at(s, p, k),
    ensures
        ends_at_first(s.subrange(from, i), p),
        s.subrange(from, i) + p + s.skip(i + p.len()) == s.skip(from),
{
    let head = s.subrange(from, i);
    lemma_head_whole(s, p, from, i);
    assert forall|k: int| k < head.len() implies !#[trigger] occurs_at(head + p, p, k) by {
        if occurs_at(head + p, p, k) {
            lemma_occurs_in_part(s, p, from, i + p.len(), k);
        }
    }
}

proof fn lemma_rest_has_none(s: Seq<char>, p: Seq<char>, from: int)
    requires
        0 <= from <= s.len(),
        forall|k: int| from <= k ==> !occurs_at(s, p, k),
    ensures
        has(s.skip(from), p) == false,
{
    let t = s.skip(from);
    if has(t, p) {
        let k = choose|k: int| occurs_at(t, p, k);
        assert(t.subrange(k, k + p.len()) =~= s.subrange(from + k, from + k + p.len()));
        assert(occurs_at(s, p, from + k));
    }
}

proof fn lemma_pieces_front(
    head: Seq<char>,
    rest: Seq<char>,
    p: Seq<char>,
    more: Seq<Seq<char>>,
)
    requires
        ends_at_first(head, p),
        pieces_of(rest, p, more),
    ensures
        pieces_of(head + p + rest, p, seq![head] + more),
{
    let pieces = seq![head] + more;
    lemma_joined_front(head, more, p);
    assert forall|m: int| 0 <= m < pieces.len() - 1 implies ends_at_first(
        #[trigger] pieces[m],
        p,
    ) by {
        if m > 0 {
            assert(pieces[m] == more[m - 1]);
        }
    }
    assert(pieces.last() == more.last());
}

proof fn lemma_replaced_pieces(s: Seq<char>, p: Seq<char>, q: Seq<char>, from: nat) -> (pieces: Seq<
    Seq<char>,
>)
    requires
        p.len() > 0,
        from <= s.len(),
    ensures
        pieces_of(s.skip(from as int), p, pieces),
        joined(pieces, q) == replaced(s, p, q, from),
        pieces.len() == occurrences(s, p, from) + 1,
    decreases s.len() - from,
{
    lemma_find_from(s, p, from);
    match find_from(s, p, from) {
        None => {
            lemma_rest_has_none(s, p, from as int);
            seq![s.skip(from as int)]
        },
        Some(i) => {
            let head = s.subrange(from as int, i as int);
            let more = lemma_replaced_pieces(s, p, q, i + p.len());
            lemma_head_ends(s, p, from as int, i as int);
            lemma_pieces_front(head, s.skip((i + p.len()) as int), p, more);
            lemma_joined_front(head, more, q);
            seq![head] + more
        },
    }
}

proof fn lemma_sprinkled_pieces(s: Seq<char>, q: Seq<char>)
    ensures
        joined(seq![Seq::<char>::empty()] + Seq::new(s.len(), |i: int| seq![s[i]]), q) + q
            == sprinkled(s, q),
    decreases s.len(),
{
    let parts = seq![Seq::<char>::empty()] + Seq::new(s.len(), |i: int| seq![s[i]]);
    if s.len() == 0 {
        assert(parts =~= seq![Seq::<char>::empty()]);
        assert(joined(parts, q) + q =~= q);
    } else {
        let d = s.drop_last();
        let fewer = seq![Seq::<char>::empty()] + Seq::new(d.len(), |i: int| seq![d[i]]);
        lemma_sprinkled_pieces(d, q);
        assert(parts.drop_last() =~= fewer);
        assert(joined(parts, q) + q =~= sprinkled(s, q));
    }
}

/// Where every copy of a text is replaced, what stood between the copies stays
/// as it was, however many there are; an empty text is found at both ends and
/// between any two characters.
pub proof fn every_copy_is_replaced(s: Seq<char>, p: Seq<char>, q: Seq<char>)
    ensures
        p.len() > 0 ==> exists|pieces: Seq<Seq<char>>| #[trigger]
            pieces_of(s, p, pieces) && replaced_all(s, p, q) == joined(pieces, q) && pieces.len()
                == match_count(s, p) + 1,
        p.len() == 0 ==> replaced_all(s, p, q) == joined(
            seq![Seq::<char>::empty()] + Seq::new(s.len(), |i: int| seq![s[i]]),
            q,
        ) + q,
{
    if p.len() > 0 {
        let pieces = lemma_replaced_pieces(s, p, q, 0);
        assert(s.skip(0) =~= s);
        assert(pieces_of(s, p, pieces));
    } else {
        lemma_sprinkled_pieces(s, q);
    }
}

proof fn lemma_some_occurrence(s: Seq<char>, p: Seq<char>, from: nat)
    requires
        p.len() > 0,
        from <= s.len(),
    ensures
        occurrences(s, p, from) > 0 <==> exists|i: int| from <= i && #[trigger] occurs_at(s, p, i),
{
    lemma_find_from(s, p, from);
    if find_from(s, p, from) is Some {
        let i = find_from(s, p, from)->0;
        assert(occurs_at(s, p, i as int));
    }
}

/// A text is found at all exactly where it stands somewhere, and more than once
/// exactly where it stands in two places that do not overlap.
pub proof fn matches_are_counted(s: Seq<char>, p: Seq<char>)
    requires
        p.len() > 0,
    ensures
        match_count(s, p) > 0 <==> has(s, p),
        match_count(s, p) > 1 <==> exists|i: int, j: int|
            #![trigger occurs_at(s, p, i), occurs_at(s, p, j)]
            i + p.len() <= j && occurs_at(s, p, i) && occurs_at(s, p, j),
{
    lemma_some_occurrence(s, p, 0);
    lemma_find_from(s, p, 0);
    match find_from(s, p, 0) {
        None => {},
        Some(k) => {
            lemma_some_occurrence(s, p, k + p.len());
            if match_count(s, p) > 1 {
                let j = choose|j: int| k + p.len() <= j && #[trigger] occurs_at(s, p, j);
                assert(occurs_at(s, p, k as int) && occurs_at(s, p, j));
            }
            if exists|i: int, j: int|
                #![trigger occurs_at(s, p, i), occurs_at(s, p, j)]
                i + p.len() <= j && occurs_at(s, p, i) && occurs_at(s, p, j) {
                let (i, j) = choose|i: int, j: int|
                    #![trigger occurs_at(s, p, i), occurs_at(s, p, j)]
                    i + p.len() <= j && occurs_at(s, p, i) && occurs_at(s, p, j);
                assert(k <= i);
                assert(k + p.len() <= j && occurs_at(s, p, j));
            }
        },
    }
}

/// A text stands in itself.
pub proof fn lemma_has_self(p: Seq<char>)
    ensures
        has(p, p),
{
    assert(p.subrange(0, p.len() as int) =~= p);
    assert(occurs_at(p, p, 0));
}

/// What stands in the front stands in the whole.
pub proof fn lemma_has_left(a: Seq<char>, b: Seq<char>, p: Seq<char>)
    requires
        has(a, p),
    ensures
        has(a + b, p),
{
    let i = choose|i: int| occurs_at(a, p, i);
    assert((a + b).subrange(i, i + p.len()) =~= a.subrange(i, i + p.len()));
    assert(occurs_at(a + b, p, i));
}

/// What stands in the rest stands in the whole.
pub proof fn lemma_has_right(a: Seq<char>, b: Seq<char>, p: Seq<char>)
    requires
        has(b, p),
    ensures
        has(a + b, p),
{
    let i = choose|i: int| occurs_at(b, p, i);
    assert((a + b).subrange(a.len() + i, a.len() + i + p.len()) =~= b.subrange(i, i + p.len()));
    assert(occurs_at(a + b, p, a.len() + i));
}

/// What stands in a text that stands in another stands in that one.
pub proof fn lemma_has_through(a: Seq<char>, b: Seq<char>, p: Seq<char>)
    requires
        has(a, b),
        has(b, p),
    ensures
        has(a, p),
{
    let i = choose|i: int| occurs_at(a, b, i);
    let k = choose|k: int| occurs_at(b, p, k);
    assert(a.subrange(i + k, i + k + p.len()) =~= a.subrange(i, i + b.len()).subrange(
        k,
        k + p.len(),
    ));
    assert(occurs_at(a, p, i + k));
}

/// Each part stands in what they are joined to.
pub proof fn lemma_has_part(parts: Seq<Seq<char>>, sep: Seq<char>, i: int)
    requires
        0 <= i < parts.len(),
    ensures
        has(joined(parts, sep), parts[i]),
{
    joined_parts_stand_in_order(parts, sep, i as nat);
    assert(occurs_at(joined(parts, sep), parts[i], place(parts, sep.len(), i as nat) as int));
}

} // verus!
