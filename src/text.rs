//! Character-level helpers: unfolding, splitting and unescaping.
use vstd::prelude::*;

verus! {

/// The pieces of `s` between occurrences of `sep`; always at least one piece.
pub open spec fn split_on(s: Seq<char>, sep: char) -> Seq<Seq<char>>
    decreases s.len(),
{
    if s.len() == 0 {
        seq![Seq::<char>::empty()]
    } else {
        let prev = split_on(s.drop_last(), sep);
        if s.last() == sep {
            prev.push(Seq::<char>::empty())
        } else {
            prev.update(prev.len() - 1, prev.last().push(s.last()))
        }
    }
}

pub proof fn lemma_split_on_nonempty(s: Seq<char>, sep: char)
    ensures
        split_on(s, sep).len() >= 1,
    decreases s.len(),
{
    if s.len() > 0 {
        lemma_split_on_nonempty(s.drop_last(), sep);
    }
}

/// The character sequences held by a vector of character vectors.
pub open spec fn views(v: Seq<Vec<char>>) -> Seq<Seq<char>> {
    v.map_values(|x: Vec<char>| x@)
}

/// Splits `s` at every `sep`.
pub fn split_chars(s: &Vec<char>, sep: char) -> (r: Vec<Vec<char>>)
    ensures
        views(r@) == split_on(s@, sep),
{
    let mut pieces: Vec<Vec<char>> = Vec::new();
    let mut cur: Vec<char> = Vec::new();
    let mut i: usize = 0;
    while i < s.len()
        invariant
            i <= s.len(),
            views(pieces@).push(cur@) == split_on(s@.subrange(0, i as int), sep),
        decreases s.len() - i,
    {
        let c = s[i];
        proof {
            lemma_split_on_nonempty(s@.subrange(0, i as int), sep);
            assert(s@.subrange(0, i as int + 1).drop_last() =~= s@.subrange(0, i as int));
        }
        if c == sep {
            let done = cur;
            cur = Vec::new();
            let ghost before = pieces@;
            pieces.push(done);
            assert(views(pieces@) =~= views(before).push(done@));
            assert(views(pieces@).push(cur@) =~= split_on(s@.subrange(0, i as int + 1), sep));
        } else {
            let ghost before = views(pieces@).push(cur@);
            cur.push(c);
            assert(views(pieces@).push(cur@) =~= before.update(before.len() - 1, before.last().push(c)));
        }
        i = i + 1;
    }
    assert(s@.subrange(0, s.len() as int) =~= s@);
    let ghost before = pieces@;
    pieces.push(cur);
    assert(views(pieces@) =~= views(before).push(cur@));
    pieces
}

/// A tab or a space: the characters that mark a folded continuation line.
pub open spec fn is_fold_space(c: char) -> bool {
    c == ' ' || c == '\t'
}

/// The text with every line break that is followed by a space or tab removed,
/// together with that space or tab (a line break is `\r\n` or `\n`).
pub open spec fn unfold(s: Seq<char>) -> Seq<char>
    decreases s.len(),
{
    if s.len() == 0 {
        s
    } else if s.len() >= 3 && s[0] == '\r' && s[1] == '\n' && is_fold_space(s[2]) {
        unfold(s.subrange(3, s.len() as int))
    } else if s.len() >= 2 && s[0] == '\n' && is_fold_space(s[1]) {
        unfold(s.subrange(2, s.len() as int))
    } else {
        seq![s[0]] + unfold(s.drop_first())
    }
}

/// Joins folded lines.
pub fn unfold_chars(s: &Vec<char>) -> (r: Vec<char>)
    ensures
        r@ == unfold(s@),
{
    let n = s.len();
    let mut out: Vec<char> = Vec::new();
    let mut i: usize = 0;
    assert(s@.subrange(0, n as int) =~= s@);
    assert(Seq::<char>::empty() + unfold(s@) =~= unfold(s@));
    while i < n
        invariant
            n == s.len(),
            i <= n,
            out@ + unfold(s@.subrange(i as int, n as int)) == unfold(s@),
        decreases n - i,
    {
        let ghost rest = s@.subrange(i as int, n as int);
        if n - i >= 3 && s[i] == '\r' && s[i + 1] == '\n' && (s[i + 2] == ' ' || s[i + 2] == '\t') {
            assert(rest.subrange(3, rest.len() as int) =~= s@.subrange(i + 3, n as int));
            i = i + 3;
        } else if n - i >= 2 && s[i] == '\n' && (s[i + 1] == ' ' || s[i + 1] == '\t') {
            assert(rest.subrange(2, rest.len() as int) =~= s@.subrange(i + 2, n as int));
            i = i + 2;
        } else {
            assert(rest.drop_first() =~= s@.subrange(i + 1, n as int));
            let ghost prev = out@;
            out.push(s[i]);
            assert(out@ + unfold(s@.subrange(i + 1, n as int)) =~= prev + (seq![s@[i as int]]
                + unfold(rest.drop_first())));
            i = i + 1;
        }
    }
    assert(s@.subrange(n as int, n as int) =~= Seq::<char>::empty());
    assert(out@ + Seq::<char>::empty() =~= out@);
    out
}

/// The character that an escape `\c` stands for in a property value.
pub open spec fn escaped(c: char) -> Option<char> {
    if c == 'n' || c == 'N' {
        Some('\n')
    } else if c == ',' || c == ';' || c == '\\' {
        Some(c)
    } else {
        None
    }
}

/// A property value with its escapes resolved; `None` where an escape is unknown
/// or a backslash ends the value.
pub open spec fn unescape(s: Seq<char>) -> Option<Seq<char>>
    decreases s.len(),
{
    if s.len() == 0 {
        Some(Seq::<char>::empty())
    } else if s[0] == '\\' {
        if s.len() < 2 {
            None
        } else {
            match (escaped(s[1]), unescape(s.subrange(2, s.len() as int))) {
                (Some(c), Some(r)) => Some(seq![c] + r),
                _ => None,
            }
        }
    } else {
        match unescape(s.drop_first()) {
            Some(r) => Some(seq![s[0]] + r),
            None => None,
        }
    }
}

/// Relies on `String::push`, which appends one character.
#[verifier::external_body]
fn push_char(s: &mut String, c: char)
    ensures
        final(s)@ == old(s)@.push(c),
{
    s.push(c)
}

/// Resolves the escapes of a property value.
pub fn unescape_chars(s: &Vec<char>) -> (r: Option<String>)
    ensures
        match r {
            Some(v) => unescape(s@) == Some(v@),
            None => unescape(s@) is None,
        },
{
    let n = s.len();
    let mut out = String::new();
    let mut i: usize = 0;
    assert(s@.subrange(0, n as int) =~= s@);
    proof {
        match unescape(s@) {
            Some(r) => assert(out@ + r =~= r),
            None => {},
        }
    }
    while i < n
        invariant
            n == s.len(),
            i <= n,
            match unescape(s@.subrange(i as int, n as int)) {
                Some(rest) => unescape(s@) == Some(out@ + rest),
                None => unescape(s@) is None,
            },
        decreases n - i,
    {
        let ghost rest = s@.subrange(i as int, n as int);
        let ghost prev = out@;
        if s[i] == '\\' {
            if i + 1 >= n {
                return None;
            }
            let e = s[i + 1];
            let c: char;
            if e == 'n' || e == 'N' {
                c = '\n';
            } else if e == ',' || e == ';' || e == '\\' {
                c = e;
            } else {
                return None;
            }
            assert(rest.subrange(2, rest.len() as int) =~= s@.subrange(i + 2, n as int));
            push_char(&mut out, c);
            proof {
                match unescape(s@.subrange(i + 2, n as int)) {
                    Some(r2) => {
                        assert(out@ + r2 =~= prev + (seq![c] + r2));
                    },
                    None => {},
                }
            }
            i = i + 2;
        } else {
            assert(rest.drop_first() =~= s@.subrange(i + 1, n as int));
            push_char(&mut out, s[i]);
            proof {
                match unescape(s@.subrange(i + 1, n as int)) {
                    Some(r2) => {
                        assert(out@ + r2 =~= prev + (seq![s@[i as int]] + r2));
                    },
                    None => {},
                }
            }
            i = i + 1;
        }
    }
    assert(s@.subrange(n as int, n as int) =~= Seq::<char>::empty());
    assert(out@ + Seq::<char>::empty() =~= out@);
    Some(out)
}

/// The characters of `s` from `from` up to `to`.
pub fn sub_chars(s: &Vec<char>, from: usize, to: usize) -> (r: Vec<char>)
    requires
        from <= to <= s.len(),
    ensures
        r@ == s@.subrange(from as int, to as int),
{
    let mut out: Vec<char> = Vec::new();
    let mut i: usize = from;
    while i < to
        invariant
            from <= i <= to <= s.len(),
            out@ == s@.subrange(from as int, i as int),
        decreases to - i,
    {
        out.push(s[i]);
        assert(s@.subrange(from as int, i as int + 1) =~= s@.subrange(from as int, i as int).push(
            s@[i as int],
        ));
        i = i + 1;
    }
    out
}

/// The position of the first `c` in `s`, or the length of `s` where there is none.
pub open spec fn index_of(s: Seq<char>, c: char) -> int
    decreases s.len(),
{
    if s.len() == 0 {
        0
    } else if s[0] == c {
        0
    } else {
        1 + index_of(s.drop_first(), c)
    }
}

pub proof fn lemma_index_of(s: Seq<char>, c: char)
    ensures
        0 <= index_of(s, c) <= s.len(),
        index_of(s, c) < s.len() ==> s[index_of(s, c)] == c,
        forall|j: int| 0 <= j < index_of(s, c) ==> s[j] != c,
    decreases s.len(),
{
    if s.len() > 0 && s[0] != c {
        lemma_index_of(s.drop_first(), c);
        assert forall|j: int| 0 <= j < index_of(s, c) implies s[j] != c by {
            if j > 0 {
                assert(s[j] == s.drop_first()[j - 1]);
            }
        }
    }
}

/// Finds the first `c` in `s`; the length of `s` where there is none.
pub fn find_char(s: &Vec<char>, c: char) -> (r: usize)
    ensures
        r == index_of(s@, c),
{
    let mut i: usize = 0;
    assert(s@.subrange(0, s.len() as int) =~= s@);
    while i < s.len()
        invariant
            i <= s.len(),
            index_of(s@, c) == i + index_of(s@.subrange(i as int, s.len() as int), c),
        decreases s.len() - i,
    {
        if s[i] == c {
            return i;
        }
        assert(s@.subrange(i as int, s.len() as int).drop_first() =~= s@.subrange(
            i as int + 1,
            s.len() as int,
        ));
        i = i + 1;
    }
    i
}

/// Whether `s` holds exactly the characters of `w`.
pub fn chars_equal(s: &Vec<char>, w: &[char]) -> (r: bool)
    ensures
        r == (s@ == w@),
{
    if s.len() != w.len() {
        return false;
    }
    let mut i: usize = 0;
    while i < s.len()
        invariant
            i <= s.len() == w@.len(),
            forall|j: int| 0 <= j < i ==> s@[j] == w@[j],
        decreases s.len() - i,
    {
        if s[i] != w[i] {
            return false;
        }
        i = i + 1;
    }
    assert(s@ =~= w@);
    true
}

/// The characters of a string, in order.
pub fn str_chars(s: &str) -> (r: Vec<char>)
    ensures
        r@ == s@,
{
    broadcast use vstd::string::group_string_axioms;

    let mut out: Vec<char> = Vec::new();
    for c in it: s.chars()
        invariant
            out@ == it.seq().subrange(0, it.index() as int),
    {
        assert(it.seq().subrange(0, it.index() as int + 1) =~= out@.push(c));
        out.push(c);
    }
    assert(out@ =~= s@);
    out
}

} // verus!
