use vstd::prelude::*;

verus! {

pub open spec fn is_digit(c: char) -> bool {
    '0' <= c && c <= '9'
}

/// The value of a decimal digit.
pub open spec fn digit_value(c: char) -> nat {
    ((c as u32) - ('0' as u32)) as nat
}

/// The value of a run of decimal digits.
pub open spec fn digits_value(d: Seq<char>) -> nat
    decreases d.len(),
{
    if d.len() == 0 {
        0
    } else {
        digits_value(d.drop_last()) * 10 + digit_value(d.last())
    }
}

/// The parts of `s` between its dots, in order.
pub open spec fn components(s: Seq<char>) -> Seq<Seq<char>>
    decreases s.len(),
{
    if s.len() == 0 {
        seq![Seq::empty()]
    } else {
        let c = components(s.drop_last());
        if s.last() == '.' {
            c.push(Seq::empty())
        } else {
            c.update(c.len() - 1, c.last().push(s.last()))
        }
    }
}

/// The most digits that a numeric component may have.
pub const MAX_COMPONENT_DIGITS: usize = 18;

/// A numeric version: digits and dots only, with every part between dots made of
/// one to eighteen digits, such as `1.8.0`.
pub open spec fn is_numeric_version(s: Seq<char>) -> bool {
    &&& forall|i: int| 0 <= i < s.len() ==> is_digit(#[trigger] s[i]) || s[i] == '.'
    &&& forall|j: int|
        0 <= j < components(s).len() ==> 0 < (#[trigger] components(s)[j]).len()
            <= MAX_COMPONENT_DIGITS
}

pub open spec fn pow10(n: nat) -> nat
    decreases n,
{
    if n == 0 {
        1
    } else {
        10 * pow10((n - 1) as nat)
    }
}

proof fn lemma_pow10_mono(a: nat, b: nat)
    requires
        a <= b,
    ensures
        pow10(a) <= pow10(b),
    decreases b,
{
    if a < b {
        lemma_pow10_mono(a, (b - 1) as nat);
    }
}

proof fn lemma_components_nonempty(s: Seq<char>)
    ensures
        components(s).len() > 0,
    decreases s.len(),
{
    if s.len() > 0 {
        lemma_components_nonempty(s.drop_last());
    }
}

/// The parts of a prefix of `s` are the parts of `s`, except that the last may
/// still grow.
proof fn lemma_components_prefix(s: Seq<char>, i: int)
    requires
        0 <= i <= s.len(),
    ensures
        ({
            let c = components(s.take(i));
            let d = components(s);
            &&& 0 < c.len() <= d.len()
            &&& forall|j: int| 0 <= j < c.len() - 1 ==> c[j] == d[j]
            &&& c.last().len() <= d[c.len() - 1].len()
            &&& c.last() == d[c.len() - 1].take(c.last().len() as int)
        }),
    decreases s.len(),
{
    lemma_components_nonempty(s);
    lemma_components_nonempty(s.take(i));
    if i == s.len() {
        assert(s.take(i) =~= s);
        assert(components(s).last() =~= components(s).last().take(components(s).last().len() as int));
    } else {
        let t = s.drop_last();
        assert(t.take(i) =~= s.take(i));
        lemma_components_prefix(t, i);
        lemma_components_nonempty(t);
        let c = components(s.take(i));
        let e = components(t);
        let d = components(s);
        if s.last() != '.' {
            let k = c.len() - 1;
            if k == e.len() - 1 {
                assert(d[k] == e[k].push(s.last()));
                assert(c.last() =~= d[k].take(c.last().len() as int));
            }
        }
    }
}

/// The numbers of a numeric version, in order.
pub open spec fn version_key(s: Seq<char>) -> Seq<nat> {
    components(s).map_values(|d: Seq<char>| digits_value(d))
}

/// `a` comes after `b` in lexicographic order; a proper extension comes after its prefix.
pub open spec fn lex_greater(a: Seq<nat>, b: Seq<nat>) -> bool
    decreases a.len(),
{
    if a.len() == 0 {
        false
    } else if b.len() == 0 {
        true
    } else if a[0] != b[0] {
        a[0] > b[0]
    } else {
        lex_greater(a.drop_first(), b.drop_first())
    }
}

/// Whether `remote` is a newer version than `current`: numeric versions compare by
/// their numbers; any other identifier counts as newer when it differs.
pub open spec fn is_newer(remote: Seq<char>, current: Seq<char>) -> bool {
    if is_numeric_version(remote) && is_numeric_version(current) {
        lex_greater(version_key(remote), version_key(current))
    } else {
        remote != current
    }
}

pub proof fn lemma_lex_irreflexive(a: Seq<nat>)
    ensures
        !lex_greater(a, a),
    decreases a.len(),
{
    if a.len() > 0 {
        lemma_lex_irreflexive(a.drop_first());
    }
}

/// No version is newer than itself.
pub proof fn lemma_not_newer_than_itself(v: Seq<char>)
    ensures
        !is_newer(v, v),
{
    lemma_lex_irreflexive(version_key(v));
}

pub open spec fn as_nats(v: Seq<u64>) -> Seq<nat> {
    v.map_values(|x: u64| x as nat)
}

/// Whether `a` comes after `b` in lexicographic order.
pub fn key_greater(a: &Vec<u64>, b: &Vec<u64>) -> (r: bool)
    ensures
        r == lex_greater(as_nats(a@), as_nats(b@)),
{
    let mut i: usize = 0;
    assert(as_nats(a@).skip(0) =~= as_nats(a@));
    assert(as_nats(b@).skip(0) =~= as_nats(b@));
    while i < a.len() && i < b.len()
        invariant
            i <= a@.len(),
            i <= b@.len(),
            lex_greater(as_nats(a@), as_nats(b@)) == lex_greater(
                as_nats(a@).skip(i as int),
                as_nats(b@).skip(i as int),
            ),
        decreases a@.len() - i,
    {
        let ghost sa = as_nats(a@).skip(i as int);
        let ghost sb = as_nats(b@).skip(i as int);
        assert(sa[0] == a@[i as int] as nat);
        assert(sb[0] == b@[i as int] as nat);
        if a[i] != b[i] {
            return a[i] > b[i];
        }
        assert(sa.drop_first() =~= as_nats(a@).skip(i + 1));
        assert(sb.drop_first() =~= as_nats(b@).skip(i + 1));
        i = i + 1;
    }
    assert(as_nats(a@).skip(i as int).len() == a@.len() - i);
    assert(as_nats(b@).skip(i as int).len() == b@.len() - i);
    i < a.len()
}

/// The numbers of `s` where it is a numeric version.
pub fn numeric_key(s: &str) -> (r: Option<Vec<u64>>)
    ensures
        match r {
            Some(k) => is_numeric_version(s@) && as_nats(k@) == version_key(s@),
            None => !is_numeric_version(s@),
        },
{
    let ghost t = s@;
    let n = s.unicode_len();
    let mut done: Vec<u64> = Vec::new();
    let mut cur: u64 = 0;
    let mut cur_len: usize = 0;
    let mut i: usize = 0;
    proof {
        assert(t.take(0) =~= Seq::<char>::empty());
        assert(components(t.take(0)) == seq![Seq::<char>::empty()]);
    }
    while i < n
        invariant
            n == t.len(),
            t == s@,
            i <= n,
            forall|k: int| 0 <= k < i ==> is_digit(#[trigger] t[k]) || t[k] == '.',
            components(t.take(i as int)).len() == done@.len() + 1,
            forall|j: int|
                0 <= j < done@.len() ==> done@[j] as nat == digits_value(
                    #[trigger] components(t.take(i as int))[j],
                ) && 0 < components(t.take(i as int))[j].len() <= MAX_COMPONENT_DIGITS,
            components(t.take(i as int)).last().len() == cur_len,
            cur_len <= MAX_COMPONENT_DIGITS,
            digits_value(components(t.take(i as int)).last()) == cur,
            cur < pow10(cur_len as nat),
        decreases n - i,
    {
        let ch = s.get_char(i);
        let ghost c = components(t.take(i as int));
        let ghost c2 = components(t.take(i + 1));
        proof {
            assert(t.take(i + 1).drop_last() =~= t.take(i as int));
            assert(t.take(i + 1).last() == ch);
        }
        if ch == '.' {
            if cur_len == 0 {
                proof {
                    lemma_components_prefix(t, i + 1);
                    assert(c2[c.len() - 1] == c.last());
                    assert(components(t)[c.len() - 1].len() == 0);
                }
                return None;
            }
            done.push(cur);
            cur = 0;
            cur_len = 0;
            proof {
                assert(c2 == c.push(Seq::<char>::empty()));
                assert(digits_value(Seq::<char>::empty()) == 0);
            }
        } else if '0' <= ch && ch <= '9' {
            if cur_len == MAX_COMPONENT_DIGITS {
                proof {
                    lemma_components_prefix(t, i + 1);
                    assert(c2.last().len() == cur_len + 1);
                    assert(components(t)[c2.len() - 1].len() > MAX_COMPONENT_DIGITS);
                }
                return None;
            }
            let d = (ch as u32 - '0' as u32) as u64;
            proof {
                lemma_pow10_mono(cur_len as nat, 17);
                reveal_with_fuel(pow10, 18);
                assert(pow10(17) == 100000000000000000);
                assert(cur * 10 + d < pow10((cur_len + 1) as nat)) by (nonlinear_arith)
                    requires
                        cur < pow10(cur_len as nat),
                        d <= 9,
                        pow10((cur_len + 1) as nat) == 10 * pow10(cur_len as nat),
                ;
                assert(c2.last() =~= c.last().push(ch));
                assert(c2.last().drop_last() =~= c.last());
                assert forall|j: int| 0 <= j < done@.len() implies c2[j] == c[j] by {}
            }
            cur = cur * 10 + d;
            cur_len = cur_len + 1;
        } else {
            assert(!(is_digit(t[i as int]) || t[i as int] == '.'));
            return None;
        }
        i = i + 1;
    }
    assert(t.take(n as int) =~= t);
    if cur_len == 0 {
        assert(components(t)[components(t).len() - 1].len() == 0);
        return None;
    }
    done.push(cur);
    proof {
        let c = components(t);
        assert forall|j: int| 0 <= j < c.len() implies 0 < (#[trigger] c[j]).len()
            <= MAX_COMPONENT_DIGITS by {
            if j < c.len() - 1 {
                assert(done@[j] as nat == digits_value(c[j]));
            }
        }
        assert(as_nats(done@) =~= version_key(t));
    }
    Some(done)
}

/// Whether `remote` is a newer version than `current`.
pub fn newer_than(remote: &str, current: &str) -> (r: bool)
    ensures
        r == is_newer(remote@, current@),
{
    match (numeric_key(remote), numeric_key(current)) {
        (Some(a), Some(b)) => key_greater(&a, &b),
        _ => {
            let r = String::from_str(remote);
            let c = String::from_str(current);
            !r.eq(&c)
        },
    }
}

} // verus!
