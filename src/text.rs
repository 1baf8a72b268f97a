use vstd::prelude::*;

verus! {

/// `pat` occurs in `s` starting at character `pos`.
pub open spec fn occurs_at(s: Seq<char>, pos: int, pat: Seq<char>) -> bool {
    0 <= pos && pos + pat.len() <= s.len() && s.subrange(pos, pos + pat.len()) == pat
}

/// `c` does not occur anywhere in `s`.
pub open spec fn lacks_char(s: Seq<char>, c: char) -> bool {
    forall|i: int| 0 <= i < s.len() ==> s[i] != c
}

/// Whether `pat` occurs in `s` starting at character `pos`.
pub fn matches_at(s: &str, pos: usize, pat: &str) -> (r: bool)
    ensures
        r == occurs_at(s@, pos as int, pat@),
{
    let n = s.unicode_len();
    let m = pat.unicode_len();
    if pos > n || m > n - pos {
        return false;
    }
    let mut i: usize = 0;
    while i < m
        invariant
            n == s@.len(),
            m == pat@.len(),
            pos + m <= n,
            i <= m,
            forall|k: int| 0 <= k < i ==> s@[pos + k] == pat@[k],
        decreases m - i,
    {
        if s.get_char(pos + i) != pat.get_char(i) {
            assert(s@.subrange(pos as int, pos + m)[i as int] != pat@[i as int]);
            return false;
        }
        i = i + 1;
    }
    assert(s@.subrange(pos as int, pos + m) =~= pat@);
    true
}

/// The first position at or after `from` that holds `c`, if any.
pub fn find_char_from(s: &str, from: usize, c: char) -> (r: Option<usize>)
    ensures
        match r {
            Some(j) => from <= j < s@.len() && s@[j as int] == c
                && lacks_char(s@.subrange(from as int, j as int), c),
            None => from >= s@.len() || lacks_char(s@.subrange(from as int, s@.len() as int), c),
        },
{
    let n = s.unicode_len();
    if from >= n {
        return None;
    }
    let mut j: usize = from;
    while j < n
        invariant
            n == s@.len(),
            from <= j <= n,
            forall|k: int| from <= k < j ==> s@[k] != c,
        decreases n - j,
    {
        if s.get_char(j) == c {
            assert(lacks_char(s@.subrange(from as int, j as int), c));
            return Some(j);
        }
        j = j + 1;
    }
    assert(lacks_char(s@.subrange(from as int, n as int), c));
    None
}

/// The characters of `s` from `from` up to, not including, `to`, as an owned string.
pub fn slice_owned(s: &str, from: usize, to: usize) -> (r: String)
    requires
        from <= to <= s@.len(),
    ensures
        r@ == s@.subrange(from as int, to as int),
{
    String::from_str(s.substring_char(from, to))
}

/// At most one text without a line break completes a line that starts with `key` at `pos`.
pub proof fn lemma_line_unique(t: Seq<char>, pos: int, key: Seq<char>, u: Seq<char>, v: Seq<char>)
    requires
        lacks_char(u, '\n'),
        lacks_char(v, '\n'),
        occurs_at(t, pos, key + u + "\n"@),
        occurs_at(t, pos, key + v + "\n"@),
    ensures
        u == v,
{
    reveal_strlit("\n");
    let wu = key + u + "\n"@;
    let wv = key + v + "\n"@;
    assert(t.subrange(pos, pos + wu.len())[wu.len() - 1] == '\n');
    assert(t.subrange(pos, pos + wv.len())[wv.len() - 1] == '\n');
    if u.len() < v.len() {
        assert(t.subrange(pos, pos + wv.len())[(key.len() + u.len()) as int] == v[u.len() as int]);
    } else if v.len() < u.len() {
        assert(t.subrange(pos, pos + wu.len())[(key.len() + v.len()) as int] == u[v.len() as int]);
    } else {
        assert forall|k: int| 0 <= k < u.len() implies u[k] == v[k] by {
            assert(t.subrange(pos, pos + wu.len())[key.len() + k] == u[k]);
            assert(t.subrange(pos, pos + wv.len())[key.len() + k] == v[k]);
        }
        assert(u =~= v);
    }
}

/// Reads the line made of `key`, a text without a line break, and a line break,
/// that starts at character `pos` of `text`, if there is one; returns the text
/// and the position after the line.
pub fn read_line(text: &str, pos: usize, key: &str) -> (r: Option<(String, usize)>)
    requires
        pos <= text@.len(),
    ensures
        match r {
            Some((v, next)) => lacks_char(v@, '\n') && next as int == pos + key@.len() + v@.len() + 1
                && occurs_at(text@, pos as int, key@ + v@ + "\n"@),
            None => forall|v: Seq<char>|
                lacks_char(v, '\n') ==> !occurs_at(text@, pos as int, key@ + v + "\n"@),
        },
{
    proof {
        reveal_strlit("\n");
    }
    let ghost t = text@;
    let _n = text.unicode_len();
    if !matches_at(text, pos, key) {
        assert forall|v: Seq<char>| lacks_char(v, '\n') implies !occurs_at(t, pos as int, key@ + v + "\n"@) by {
            if occurs_at(t, pos as int, key@ + v + "\n"@) {
                let w = key@ + v + "\n"@;
                assert(t.subrange(pos as int, pos + key@.len()) =~= t.subrange(pos as int, pos + w.len()).subrange(0, key@.len() as int));
                assert(w.subrange(0, key@.len() as int) =~= key@);
            }
        }
        return None;
    }
    let start = pos + key.unicode_len();
    match find_char_from(text, start, '\n') {
        None => {
            assert forall|v: Seq<char>| lacks_char(v, '\n') implies !occurs_at(t, pos as int, key@ + v + "\n"@) by {
                if occurs_at(t, pos as int, key@ + v + "\n"@) {
                    let w = key@ + v + "\n"@;
                    assert(t.subrange(pos as int, pos + w.len())[w.len() - 1] == '\n');
                    assert(t.subrange(start as int, t.len() as int)[v.len() as int] == '\n');
                }
            }
            None
        },
        Some(j) => {
            let v = slice_owned(text, start, j);
            assert(t.subrange(pos as int, j + 1) =~= key@ + v@ + "\n"@);
            assert forall|k: int| 0 <= k < v@.len() implies v@[k] != '\n' by {
                assert(t.subrange(start as int, j as int)[k] == v@[k]);
            }
            Some((v, j + 1))
        },
    }
}

} // verus!
