//! Searching, splitting and trimming sequences of characters.
use vstd::prelude::*;
use vstd::std_specs::iter::IteratorSpec;

verus! {

/// Whether `c` is white space in the sense of Unicode: the characters
/// that trimming removes.
pub open spec fn is_whitespace(c: char) -> bool {
    let u = c as int;
    ||| 0x09 <= u <= 0x0d
    ||| u == 0x20
    ||| u == 0x85
    ||| u == 0xa0
    ||| u == 0x1680
    ||| 0x2000 <= u <= 0x200a
    ||| u == 0x2028
    ||| u == 0x2029
    ||| u == 0x202f
    ||| u == 0x205f
    ||| u == 0x3000
}

/// The first index at or after `from` at which `s` holds `c`, and the
/// length of `s` where it does not.
pub open spec fn position_from(s: Seq<char>, c: char, from: int) -> int
    decreases s.len() - from,
{
    if from < 0 || from >= s.len() || s[from] == c {
        from
    } else {
        position_from(s, c, from + 1)
    }
}

/// The first index at which `s` holds `c`, and the length of `s` where it
/// does not.
pub open spec fn position(s: Seq<char>, c: char) -> int {
    position_from(s, c, 0)
}

/// `s` without the white space at its start.
pub open spec fn trim_start(s: Seq<char>) -> Seq<char>
    decreases s.len(),
{
    if s.len() > 0 && is_whitespace(s[0]) {
        trim_start(s.drop_first())
    } else {
        s
    }
}

/// `s` without the white space at its end.
pub open spec fn trim_end(s: Seq<char>) -> Seq<char>
    decreases s.len(),
{
    if s.len() > 0 && is_whitespace(s.last()) {
        trim_end(s.drop_last())
    } else {
        s
    }
}

/// `s` without the white space at its start and at its end.
pub open spec fn trimmed(s: Seq<char>) -> Seq<char> {
    trim_end(trim_start(s))
}

/// The pieces of `s` from index `from` on that the separator `sep`
/// delimits: one more than there are separators.
pub open spec fn split_from(s: Seq<char>, sep: char, from: int) -> Seq<Seq<char>>
    decreases s.len() - from,
{
    if from < 0 || from > s.len() {
        Seq::empty()
    } else {
        let next = position_from(s, sep, from);
        proof {
            lemma_position_from(s, sep, from);
        }
        if next >= s.len() {
            seq![s.subrange(from, s.len() as int)]
        } else {
            seq![s.subrange(from, next)] + split_from(s, sep, next + 1)
        }
    }
}

/// The pieces of `s` that the separator `sep` delimits.
pub open spec fn split_on(s: Seq<char>, sep: char) -> Seq<Seq<char>> {
    split_from(s, sep, 0)
}

/// The contents of each vector of a list.
pub open spec fn views(pieces: Seq<Vec<char>>) -> Seq<Seq<char>> {
    Seq::new(pieces.len(), |i: int| pieces[i]@)
}

/// The search for a character passes over what differs from it, and ends
/// at the character or at the end.
pub proof fn lemma_position_from(s: Seq<char>, c: char, from: int)
    requires
        0 <= from <= s.len(),
    ensures
        from <= position_from(s, c, from) <= s.len(),
        position_from(s, c, from) < s.len() ==> s[position_from(s, c, from)] == c,
        forall|i: int| from <= i < position_from(s, c, from) ==> s[i] != c,
    decreases s.len() - from,
{
    if from < s.len() && s[from] != c {
        lemma_position_from(s, c, from + 1);
    }
}

/// A character that `s` holds is found at its first place.
pub proof fn lemma_position_contains(s: Seq<char>, c: char)
    ensures
        s.contains(c) <==> position(s, c) < s.len(),
{
    lemma_position_from(s, c, 0);
    if s.contains(c) {
        let i = choose|i: int| 0 <= i < s.len() && s[i] == c;
        assert(s[i] == c);
    }
}

/// Trimming the start drops a prefix of white space that ends before a
/// character of another kind, or at the end.
pub proof fn lemma_trim_start(s: Seq<char>, k: int)
    requires
        0 <= k <= s.len(),
        forall|i: int| 0 <= i < k ==> is_whitespace(#[trigger] s[i]),
        k < s.len() ==> !is_whitespace(s[k]),
    ensures
        trim_start(s) == s.subrange(k, s.len() as int),
    decreases k,
{
    if k == 0 {
        assert(s.subrange(0, s.len() as int) =~= s);
    } else {
        let rest = s.drop_first();
        assert forall|i: int| 0 <= i < k - 1 implies is_whitespace(#[trigger] rest[i]) by {
            assert(rest[i] == s[i + 1]);
        }
        lemma_trim_start(rest, k - 1);
        assert(rest.subrange(k - 1, rest.len() as int) =~= s.subrange(k, s.len() as int));
    }
}

/// Trimming the end drops a suffix of white space that starts after a
/// character of another kind, or at the start.
pub proof fn lemma_trim_end(s: Seq<char>, k: int)
    requires
        0 <= k <= s.len(),
        forall|i: int| k <= i < s.len() ==> is_whitespace(#[trigger] s[i]),
        k > 0 ==> !is_whitespace(s[k - 1]),
    ensures
        trim_end(s) == s.subrange(0, k),
    decreases s.len() - k,
{
    if k == s.len() {
        assert(s.subrange(0, k) =~= s);
    } else {
        let rest = s.drop_last();
        assert forall|i: int| k <= i < rest.len() implies is_whitespace(#[trigger] rest[i]) by {
            assert(rest[i] == s[i]);
        }
        lemma_trim_end(rest, k);
        assert(rest.subrange(0, k) =~= s.subrange(0, k));
    }
}

/// The characters of a string, in order.
pub fn chars_of(text: &str) -> (r: Vec<char>)
    ensures
        r@ == text@,
{
    broadcast use {vstd::string::axiom_spec_iter, vstd::string::next_postcondition};

    let mut rest = text.chars();
    let mut out: Vec<char> = Vec::new();
    loop
        invariant_except_break
            rest.decrease() is Some,
            out@ + rest.remaining() == text@,
        ensures
            out@ == text@,
        decreases rest.decrease()->0,
    {
        let ghost before = rest.remaining();
        match rest.next() {
            Some(c) => {
                out.push(c);
                proof {
                    assert(out@ + rest.remaining() =~= out@.drop_last() + before);
                }
            },
            None => {
                proof {
                    assert(out@ + before =~= out@);
                }
                break;
            },
        }
    }
    out
}

/// Whether `c` is white space.
pub fn is_space(c: char) -> (r: bool)
    ensures
        r == is_whitespace(c),
{
    let u: u32 = c as u32;
    (0x09 <= u && u <= 0x0d) || u == 0x20 || u == 0x85 || u == 0xa0 || u == 0x1680 || (0x2000 <= u
        && u <= 0x200a) || u == 0x2028 || u == 0x2029 || u == 0x202f || u == 0x205f || u == 0x3000
}

/// The first index at or after `from` at which `s` holds `c`, or the
/// length of `s`.
pub fn find_from(s: &Vec<char>, c: char, from: usize) -> (r: usize)
    requires
        from <= s.len(),
    ensures
        r == position_from(s@, c, from as int),
        from <= r <= s.len(),
{
    let mut i: usize = from;
    while i < s.len() && s[i] != c
        invariant
            from <= i <= s@.len(),
            position_from(s@, c, from as int) == position_from(s@, c, i as int),
        decreases s@.len() - i,
    {
        i += 1;
    }
    i
}

/// The first index at which `s` holds `c`, or the length of `s`.
pub fn find(s: &Vec<char>, c: char) -> (r: usize)
    ensures
        r == position(s@, c),
        r <= s.len(),
{
    find_from(s, c, 0)
}

/// The characters of `s` from index `from` up to `to`.
pub fn slice(s: &Vec<char>, from: usize, to: usize) -> (r: Vec<char>)
    requires
        from <= to <= s.len(),
    ensures
        r@ == s@.subrange(from as int, to as int),
{
    let mut out: Vec<char> = Vec::new();
    let mut i: usize = from;
    while i < to
        invariant
            from <= i <= to <= s@.len(),
            out@ == s@.subrange(from as int, i as int),
        decreases to - i,
    {
        out.push(s[i]);
        i += 1;
    }
    out
}

/// `s` without the white space at its start and at its end.
pub fn trim(s: &Vec<char>) -> (r: Vec<char>)
    ensures
        r@ == trimmed(s@),
{
    let mut lo: usize = 0;
    while lo < s.len() && is_space(s[lo])
        invariant
            lo <= s@.len(),
            forall|i: int| 0 <= i < lo ==> is_whitespace(#[trigger] s@[i]),
        decreases s@.len() - lo,
    {
        lo += 1;
    }
    let mut hi: usize = s.len();
    while hi > lo && is_space(s[hi - 1])
        invariant
            lo <= hi <= s@.len(),
            forall|i: int| hi <= i < s@.len() ==> is_whitespace(#[trigger] s@[i]),
        decreases hi,
    {
        hi -= 1;
    }
    proof {
        let rest = s@.subrange(lo as int, s@.len() as int);
        lemma_trim_start(s@, lo as int);
        assert forall|i: int| hi - lo <= i < rest.len() implies is_whitespace(#[trigger] rest[i]) by {
            assert(rest[i] == s@[i + lo]);
        }
        lemma_trim_end(rest, hi - lo);
        assert(rest.subrange(0, hi - lo) =~= s@.subrange(lo as int, hi as int));
    }
    slice(s, lo, hi)
}

/// The pieces of `s` that the separator `sep` delimits, in order.
pub fn split(s: &Vec<char>, sep: char) -> (r: Vec<Vec<char>>)
    ensures
        views(r@) == split_on(s@, sep),
{
    let mut pieces: Vec<Vec<char>> = Vec::new();
    let mut start: usize = 0;
    loop
        invariant_except_break
            start <= s@.len(),
            split_on(s@, sep) == views(pieces@) + split_from(s@, sep, start as int),
        ensures
            views(pieces@) == split_on(s@, sep),
        decreases s@.len() - start,
    {
        let next = find_from(s, sep, start);
        let piece = slice(s, start, next);
        let ghost before = pieces@;
        pieces.push(piece);
        proof {
            assert(views(pieces@) =~= views(before) + seq![piece@]);
        }
        if next >= s.len() {
            proof {
                assert(views(before) + split_from(s@, sep, start as int) =~= views(pieces@));
            }
            break;
        }
        proof {
            assert(views(before) + (seq![piece@] + split_from(s@, sep, next + 1)) =~= views(pieces@)
                + split_from(s@, sep, next + 1));
        }
        start = next + 1;
    }
    pieces
}

} // verus!
