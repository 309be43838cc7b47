//! Text: joining with a separator, decimal numerals, and the order of strings.

use vstd::prelude::*;
use vstd::relations::sorted_by;

verus! {

/// `parts` with `sep` between each two neighbours.
pub open spec fn join(parts: Seq<Seq<char>>, sep: Seq<char>) -> Seq<char>
    decreases parts.len(),
{
    if parts.len() == 0 {
        Seq::empty()
    } else if parts.len() == 1 {
        parts[0]
    } else {
        join(parts.drop_last(), sep) + sep + parts.last()
    }
}

/// The separator of lists in summaries.
pub open spec fn comma_sep() -> Seq<char> {
    seq![',', ' ']
}

/// The views of a vector of strings.
pub open spec fn views(v: Seq<String>) -> Seq<Seq<char>> {
    v.map_values(|s: String| s@)
}

/// The separator of lists in summaries.
pub fn comma() -> (r: &'static str)
    ensures
        r@ == comma_sep(),
{
    proof {
        reveal_strlit(", ");
    }
    ", "
}

/// Joins `parts` with `sep` between each two neighbours.
pub fn join_strings(parts: &Vec<String>, sep: &str) -> (r: String)
    ensures
        r@ == join(views(parts@), sep@),
{
    let mut r = String::new();
    let n = parts.len();
    let mut i: usize = 0;
    while i < n
        invariant
            n == parts.len(),
            i <= n,
            r@ == join(views(parts@).take(i as int), sep@),
        decreases n - i,
    {
        let ghost before = views(parts@).take(i as int);
        let ghost after = views(parts@).take(i as int + 1);
        assert(after.drop_last() =~= before);
        assert(after.last() == parts@[i as int]@);
        if i > 0 {
            r.append(sep);
        }
        r.append(parts[i].as_str());
        proof {
            if i == 0 {
                assert(after.len() == 1);
                assert(r@ =~= join(after, sep@));
            }
        }
        i = i + 1;
    }
    assert(views(parts@).take(n as int) =~= views(parts@));
    r
}

/// Lexicographic order of sequences under the order `lt` of their elements.
pub open spec fn lex_lt<T>(a: Seq<T>, b: Seq<T>, lt: spec_fn(T, T) -> bool) -> bool
    decreases a.len(),
{
    if a.len() == 0 {
        b.len() > 0
    } else if b.len() == 0 {
        false
    } else if a[0] == b[0] {
        lex_lt(a.drop_first(), b.drop_first(), lt)
    } else {
        lt(a[0], b[0])
    }
}

/// `lt` is a strict total order.
pub open spec fn strict_total<T>(lt: spec_fn(T, T) -> bool) -> bool {
    &&& forall|x: T| !(#[trigger] lt(x, x))
    &&& forall|x: T, y: T, z: T| #[trigger] lt(x, y) && #[trigger] lt(y, z) ==> lt(x, z)
    &&& forall|x: T, y: T| x != y ==> #[trigger] lt(x, y) || #[trigger] lt(y, x)
}

/// The order of characters by their code points, which is also the order of
/// their UTF-8 encodings.
pub open spec fn char_lt() -> spec_fn(char, char) -> bool {
    |x: char, y: char| (x as int) < (y as int)
}

/// The order of bytes.
pub open spec fn byte_lt() -> spec_fn(u8, u8) -> bool {
    |x: u8, y: u8| x < y
}

/// The order of strings.
pub open spec fn str_lt(a: Seq<char>, b: Seq<char>) -> bool {
    lex_lt(a, b, char_lt())
}

proof fn lemma_lex_irreflexive<T>(a: Seq<T>, lt: spec_fn(T, T) -> bool)
    requires
        strict_total(lt),
    ensures
        !lex_lt(a, a, lt),
    decreases a.len(),
{
    if a.len() > 0 {
        lemma_lex_irreflexive(a.drop_first(), lt);
    }
}

proof fn lemma_lex_transitive<T>(a: Seq<T>, b: Seq<T>, c: Seq<T>, lt: spec_fn(T, T) -> bool)
    requires
        strict_total(lt),
        lex_lt(a, b, lt),
        lex_lt(b, c, lt),
    ensures
        lex_lt(a, c, lt),
    decreases a.len(),
{
    if a.len() > 0 && b.len() > 0 && c.len() > 0 {
        if a[0] == b[0] && b[0] == c[0] {
            lemma_lex_transitive(a.drop_first(), b.drop_first(), c.drop_first(), lt);
        } else if a[0] == b[0] {
            assert(lt(b[0], c[0]));
        } else if b[0] == c[0] {
            assert(lt(a[0], b[0]));
        } else {
            assert(lt(a[0], b[0]) && lt(b[0], c[0]));
            if a[0] == c[0] {
                assert(lt(a[0], a[0]));
            }
        }
    }
}

proof fn lemma_lex_total<T>(a: Seq<T>, b: Seq<T>, lt: spec_fn(T, T) -> bool)
    requires
        strict_total(lt),
        a != b,
    ensures
        lex_lt(a, b, lt) || lex_lt(b, a, lt),
    decreases a.len(),
{
    if a.len() > 0 && b.len() > 0 && a[0] == b[0] {
        if a.drop_first() == b.drop_first() {
            assert(a =~= seq![a[0]] + a.drop_first());
            assert(b =~= seq![b[0]] + b.drop_first());
        }
        lemma_lex_total(a.drop_first(), b.drop_first(), lt);
    } else if a.len() == 0 && b.len() == 0 {
        assert(a =~= b);
    }
}

/// The lexicographic order under a strict total order is a strict total order.
pub proof fn lemma_lex_strict_total<T>(lt: spec_fn(T, T) -> bool)
    requires
        strict_total(lt),
    ensures
        strict_total(|a: Seq<T>, b: Seq<T>| lex_lt(a, b, lt)),
{
    let l = |a: Seq<T>, b: Seq<T>| lex_lt(a, b, lt);
    assert forall|x: Seq<T>| !(#[trigger] l(x, x)) by {
        lemma_lex_irreflexive(x, lt);
    }
    assert forall|x: Seq<T>, y: Seq<T>, z: Seq<T>| #[trigger] l(x, y) && #[trigger] l(y, z) implies l(x, z) by {
        lemma_lex_transitive(x, y, z, lt);
    }
    assert forall|x: Seq<T>, y: Seq<T>| x != y implies #[trigger] l(x, y) || #[trigger] l(y, x) by {
        lemma_lex_total(x, y, lt);
    }
}

/// The order of strings is a strict total order.
pub proof fn lemma_str_lt_strict_total()
    ensures
        strict_total(|a: Seq<char>, b: Seq<char>| str_lt(a, b)),
{
    let c = char_lt();
    assert forall|x: char, y: char| x != y implies #[trigger] c(x, y) || #[trigger] c(y, x) by {
        assert((x as int) != (y as int));
    }
    assert(strict_total(char_lt()));
    lemma_lex_strict_total(char_lt());
    let l1 = |a: Seq<char>, b: Seq<char>| lex_lt(a, b, char_lt());
    let l2 = |a: Seq<char>, b: Seq<char>| str_lt(a, b);
    assert(l1 =~= l2);
}

/// Whether `a` comes before `b` in the order of strings.
pub fn str_less(a: &str, b: &str) -> (r: bool)
    ensures
        r == str_lt(a@, b@),
{
    let na = a.unicode_len();
    let nb = b.unicode_len();
    let mut i: usize = 0;
    assert(a@.skip(0) =~= a@);
    assert(b@.skip(0) =~= b@);
    while i < na && i < nb
        invariant
            na == a@.len(),
            nb == b@.len(),
            i <= na,
            i <= nb,
            str_lt(a@, b@) == str_lt(a@.skip(i as int), b@.skip(i as int)),
        decreases na - i,
    {
        let ca = a.get_char(i);
        let cb = b.get_char(i);
        let ghost sa = a@.skip(i as int);
        let ghost sb = b@.skip(i as int);
        assert(sa[0] == ca && sb[0] == cb);
        if ca != cb {
            return (ca as u32) < (cb as u32);
        }
        assert(sa.drop_first() =~= a@.skip(i as int + 1));
        assert(sb.drop_first() =~= b@.skip(i as int + 1));
        i = i + 1;
    }
    i == na && i < nb
}

/// The decimal digits.
pub open spec fn digit_chars() -> Seq<char> {
    seq!['0', '1', '2', '3', '4', '5', '6', '7', '8', '9']
}

/// `n` written in decimal, without leading zeros.
pub open spec fn decimal(n: nat) -> Seq<char>
    decreases n,
{
    if n < 10 {
        seq![digit_chars()[n as int]]
    } else {
        decimal(n / 10).push(digit_chars()[(n % 10) as int])
    }
}

fn digit_str(d: u64) -> (r: &'static str)
    requires
        d < 10,
    ensures
        r@ == seq![digit_chars()[d as int]],
{
    match d {
        0 => {
            proof {
                reveal_strlit("0");
            }
            "0"
        },
        1 => {
            proof {
                reveal_strlit("1");
            }
            "1"
        },
        2 => {
            proof {
                reveal_strlit("2");
            }
            "2"
        },
        3 => {
            proof {
                reveal_strlit("3");
            }
            "3"
        },
        4 => {
            proof {
                reveal_strlit("4");
            }
            "4"
        },
        5 => {
            proof {
                reveal_strlit("5");
            }
            "5"
        },
        6 => {
            proof {
                reveal_strlit("6");
            }
            "6"
        },
        7 => {
            proof {
                reveal_strlit("7");
            }
            "7"
        },
        8 => {
            proof {
                reveal_strlit("8");
            }
            "8"
        },
        _ => {
            proof {
                reveal_strlit("9");
            }
            "9"
        },
    }
}

/// Appends `n`, written in decimal.
pub fn push_decimal(s: &mut String, n: u64)
    ensures
        final(s)@ == old(s)@ + decimal(n as nat),
    decreases n,
{
    if n >= 10 {
        push_decimal(s, n / 10);
    }
    s.append(digit_str(n % 10));
    assert(s@ =~= old(s)@ + decimal(n as nat));
}

/// The order of strings, as a relation.
pub open spec fn str_order() -> spec_fn(Seq<char>, Seq<char>) -> bool {
    |a: Seq<char>, b: Seq<char>| str_lt(a, b)
}

/// The elements of the finite set `s` in increasing order under `lt`.
pub open spec fn sorted_set<T>(s: Set<T>, lt: spec_fn(T, T) -> bool) -> Seq<T> {
    choose|q: Seq<T>| sorted_by(q, lt) && q.to_set() == s
}

proof fn lemma_sorted_head_not_in_tail<T>(x: Seq<T>, lt: spec_fn(T, T) -> bool)
    requires
        strict_total(lt),
        sorted_by(x, lt),
        x.len() > 0,
    ensures
        x.drop_first().to_set() == x.to_set().remove(x[0]),
        sorted_by(x.drop_first(), lt),
{
    let t = x.drop_first();
    assert forall|i: int, j: int| 0 <= i < j < t.len() implies #[trigger] lt(t[i], t[j]) by {
        assert(lt(x[i + 1], x[j + 1]));
    }
    assert forall|e: T| t.to_set().contains(e) <==> x.to_set().remove(x[0]).contains(e) by {
        if t.to_set().contains(e) {
            let k = choose|k: int| 0 <= k < t.len() && t[k] == e;
            assert(x[k + 1] == e);
            assert(lt(x[0], x[k + 1]));
            assert(x.to_set().contains(e));
        }
        if x.to_set().remove(x[0]).contains(e) {
            let k = choose|k: int| 0 <= k < x.len() && x[k] == e;
            assert(k != 0);
            assert(t[k - 1] == e);
            assert(t.to_set().contains(e));
        }
    }
    assert(t.to_set() =~= x.to_set().remove(x[0]));
}

/// Two sequences sorted by a strict total order with the same elements are equal.
pub proof fn lemma_sorted_set_unique<T>(x: Seq<T>, y: Seq<T>, lt: spec_fn(T, T) -> bool)
    requires
        strict_total(lt),
        sorted_by(x, lt),
        sorted_by(y, lt),
        x.to_set() == y.to_set(),
    ensures
        x == y,
    decreases x.len(),
{
    if x.len() == 0 {
        if y.len() > 0 {
            assert(y.to_set().contains(y[0]));
        }
        assert(x =~= y);
    } else {
        assert(x.to_set().contains(x[0]));
        assert(y.len() > 0);
        assert(y.to_set().contains(y[0]));
        let k = choose|k: int| 0 <= k < y.len() && y[k] == x[0];
        let m = choose|m: int| 0 <= m < x.len() && x[m] == y[0];
        if x[0] != y[0] {
            assert(k > 0 && m > 0);
            assert(lt(y[0], y[k]));
            assert(lt(x[0], x[m]));
            assert(lt(x[0], x[0]));
        }
        lemma_sorted_head_not_in_tail(x, lt);
        lemma_sorted_head_not_in_tail(y, lt);
        lemma_sorted_set_unique(x.drop_first(), y.drop_first(), lt);
        assert(x =~= seq![x[0]] + x.drop_first());
        assert(y =~= seq![y[0]] + y.drop_first());
    }
}

/// A sequence sorted by a strict total order is the sorted set of its elements.
pub proof fn lemma_sorted_set_of<T>(q: Seq<T>, lt: spec_fn(T, T) -> bool)
    requires
        strict_total(lt),
        sorted_by(q, lt),
    ensures
        sorted_set(q.to_set(), lt) == q,
{
    let c = sorted_set(q.to_set(), lt);
    assert(sorted_by(c, lt) && c.to_set() == q.to_set());
    lemma_sorted_set_unique(c, q, lt);
}

/// Inserting `x` where everything before it is smaller and what follows is
/// not keeps a sequence sorted, and adds `x` to its elements.
pub proof fn lemma_sorted_insert<T>(before: Seq<T>, i: int, x: T, lt: spec_fn(T, T) -> bool)
    requires
        strict_total(lt),
        sorted_by(before, lt),
        0 <= i <= before.len(),
        forall|j: int| 0 <= j < i ==> #[trigger] lt(before[j], x),
        i < before.len() ==> !lt(before[i], x) && before[i] != x,
    ensures
        sorted_by(before.insert(i, x), lt),
        before.insert(i, x).to_set() == before.to_set().insert(x),
{
    let after = before.insert(i, x);
    assert forall|a: int, b: int| 0 <= a < b < after.len() implies #[trigger] lt(after[a], after[b]) by {
        if b < i {
            assert(lt(before[a], before[b]));
        } else if b == i {
            assert(lt(before[a], x));
        } else if a == i {
            assert(lt(x, before[i]) || lt(before[i], x));
            if b - 1 > i {
                assert(lt(before[i], before[b - 1]));
            }
        } else if a < i {
            assert(lt(before[a], x));
            assert(lt(x, before[i]) || lt(before[i], x));
            if b - 1 > i {
                assert(lt(before[i], before[b - 1]));
            }
        } else {
            assert(lt(before[a - 1], before[b - 1]));
        }
    }
    assert forall|e: T| after.to_set().contains(e) <==> before.to_set().insert(x).contains(e) by {
        if after.to_set().contains(e) {
            let k = choose|k: int| 0 <= k < after.len() && after[k] == e;
            if k < i {
                assert(before[k] == e);
            } else if k > i {
                assert(before[k - 1] == e);
            }
        }
        if before.to_set().contains(e) {
            let k = choose|k: int| 0 <= k < before.len() && before[k] == e;
            if k < i {
                assert(after[k] == e);
            } else {
                assert(after[k + 1] == e);
            }
        }
        if e == x {
            assert(after[i] == e);
        }
    }
    assert(after.to_set() =~= before.to_set().insert(x));
}

/// The elements of a prefix one longer are those of the prefix and the next element.
pub proof fn lemma_take_to_set<T>(s: Seq<T>, i: int)
    requires
        0 <= i < s.len(),
    ensures
        s.take(i + 1).to_set() == s.take(i).to_set().insert(s[i]),
{
    let a = s.take(i + 1);
    let b = s.take(i);
    assert forall|x: T| a.to_set().contains(x) <==> b.to_set().insert(s[i]).contains(x) by {
        if a.to_set().contains(x) {
            let j = choose|j: int| 0 <= j < a.len() && a[j] == x;
            if j < i {
                assert(b[j] == x);
            }
        }
        if b.to_set().contains(x) {
            let j = choose|j: int| 0 <= j < b.len() && b[j] == x;
            assert(a[j] == x);
        }
        if x == s[i] {
            assert(a[i] == x);
        }
    }
    assert(a.to_set() =~= b.to_set().insert(s[i]));
}

/// Inserts `s` into the set `set`, kept as a vector in increasing order.
pub fn insert_sorted(set: &mut Vec<String>, s: String)
    requires
        sorted_by(views(old(set)@), str_order()),
    ensures
        sorted_by(views(final(set)@), str_order()),
        views(final(set)@).to_set() == views(old(set)@).to_set().insert(s@),
{
    proof {
        lemma_str_lt_strict_total();
    }
    let ghost lt = str_order();
    let n = set.len();
    let mut i: usize = 0;
    while i < n
        invariant
            n == set@.len(),
            i <= n,
            forall|j: int| 0 <= j < i ==> str_lt(#[trigger] views(set@)[j], s@),
        ensures
            i <= n,
            forall|j: int| 0 <= j < i ==> str_lt(#[trigger] views(set@)[j], s@),
            i < n ==> !str_lt(views(set@)[i as int], s@),
        decreases n - i,
    {
        if !str_less(set[i].as_str(), s.as_str()) {
            break;
        }
        i = i + 1;
    }
    let ghost before = views(set@);
    if i < n && set[i] == s {
        assert(before.to_set().contains(s@)) by {
            assert(before[i as int] == s@);
        }
        assert(before.to_set().insert(s@) =~= before.to_set());
        return;
    }
    proof {
        assert(i < n ==> !lt(before[i as int], s@) && before[i as int] != s@);
        assert forall|j: int| 0 <= j < i implies #[trigger] lt(before[j], s@) by {
            assert(str_lt(before[j], s@));
        }
        lemma_sorted_insert(before, i as int, s@, lt);
    }
    set.insert(i, s);
    assert(views(set@) =~= before.insert(i as int, s@));
}

} // verus!
