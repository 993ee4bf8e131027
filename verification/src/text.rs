//! Character-level text helpers: equality, prefixes, ordering, joining and splitting.

use vstd::prelude::*;
use vstd::relations::*;

verus! {

/// Byte-wise (code point) lexicographic order on text, as `str`'s `Ord` compares.
pub open spec fn text_le(a: Seq<char>, b: Seq<char>) -> bool
    decreases a.len(),
{
    if a.len() == 0 {
        true
    } else if b.len() == 0 {
        false
    } else if a[0] != b[0] {
        a[0] < b[0]
    } else {
        text_le(a.drop_first(), b.drop_first())
    }
}

/// Strict version of [`text_le`].
pub open spec fn text_lt(a: Seq<char>, b: Seq<char>) -> bool {
    text_le(a, b) && a != b
}

/// Every element comes strictly before the next ones: sorted and free of duplicates.
pub open spec fn strictly_sorted(s: Seq<Seq<char>>) -> bool {
    forall|i: int, j: int| 0 <= i < j < s.len() ==> #[trigger] text_lt(s[i], s[j])
}

/// The views of a vector of strings.
pub open spec fn views(v: Seq<String>) -> Seq<Seq<char>> {
    v.map_values(|s: String| s@)
}

pub proof fn lemma_text_le_reflexive(a: Seq<char>)
    ensures
        text_le(a, a),
    decreases a.len(),
{
    if a.len() > 0 {
        lemma_text_le_reflexive(a.drop_first());
    }
}

pub proof fn lemma_text_le_antisymmetric(a: Seq<char>, b: Seq<char>)
    requires
        text_le(a, b),
        text_le(b, a),
    ensures
        a == b,
    decreases a.len(),
{
    if a.len() > 0 && b.len() > 0 {
        if a[0] == b[0] {
            lemma_text_le_antisymmetric(a.drop_first(), b.drop_first());
            assert(a =~= seq![a[0]] + a.drop_first());
            assert(b =~= seq![b[0]] + b.drop_first());
        } else {
            assert(a[0] < b[0]);
            assert((b[0] as u32) < (a[0] as u32));
        }
    }
}

pub proof fn lemma_text_le_transitive(a: Seq<char>, b: Seq<char>, c: Seq<char>)
    requires
        text_le(a, b),
        text_le(b, c),
    ensures
        text_le(a, c),
    decreases a.len(),
{
    if a.len() > 0 && b.len() > 0 && c.len() > 0 {
        if a[0] == b[0] && b[0] == c[0] {
            lemma_text_le_transitive(a.drop_first(), b.drop_first(), c.drop_first());
        }
    }
}

pub proof fn lemma_text_le_total(a: Seq<char>, b: Seq<char>)
    ensures
        text_le(a, b) || text_le(b, a),
    decreases a.len(),
{
    if a.len() > 0 && b.len() > 0 {
        if a[0] == b[0] {
            lemma_text_le_total(a.drop_first(), b.drop_first());
        }
    }
}

pub proof fn lemma_text_le_total_ordering()
    ensures
        total_ordering(|a: Seq<char>, b: Seq<char>| text_le(a, b)),
{
    let f = |a: Seq<char>, b: Seq<char>| text_le(a, b);
    assert forall|a: Seq<char>| #[trigger] f(a, a) by {
        lemma_text_le_reflexive(a);
    }
    assert forall|a: Seq<char>, b: Seq<char>| #[trigger] f(a, b) && #[trigger] f(b, a) implies a == b by {
        lemma_text_le_antisymmetric(a, b);
    }
    assert forall|a: Seq<char>, b: Seq<char>, c: Seq<char>|
        #[trigger] f(a, b) && #[trigger] f(b, c) implies f(a, c) by {
        lemma_text_le_transitive(a, b, c);
    }
    assert forall|a: Seq<char>, b: Seq<char>| #[trigger] f(a, b) || f(b, a) by {
        lemma_text_le_total(a, b);
    }
}

/// Text equality, character by character.
pub fn text_eq(a: &str, b: &str) -> (r: bool)
    ensures
        r == (a@ == b@),
{
    let la = a.unicode_len();
    let lb = b.unicode_len();
    if la != lb {
        return false;
    }
    let mut i: usize = 0;
    while i < la
        invariant
            la == a@.len(),
            lb == b@.len(),
            la == lb,
            i <= la,
            forall|k: int| 0 <= k < i ==> a@[k] == b@[k],
        decreases la - i,
    {
        if a.get_char(i) != b.get_char(i) {
            return false;
        }
        i = i + 1;
    }
    assert(a@ =~= b@);
    true
}

/// Whether `prefix` starts `s`.
pub fn has_prefix(s: &str, prefix: &str) -> (r: bool)
    ensures
        r == prefix@.is_prefix_of(s@),
{
    let ls = s.unicode_len();
    let lp = prefix.unicode_len();
    if lp > ls {
        return false;
    }
    let mut i: usize = 0;
    while i < lp
        invariant
            ls == s@.len(),
            lp == prefix@.len(),
            lp <= ls,
            i <= lp,
            forall|k: int| 0 <= k < i ==> s@[k] == prefix@[k],
        decreases lp - i,
    {
        if s.get_char(i) != prefix.get_char(i) {
            assert(s@.subrange(0, lp as int)[i as int] != prefix@[i as int]);
            return false;
        }
        i = i + 1;
    }
    assert(prefix@ =~= s@.subrange(0, lp as int));
    true
}

/// `a <= b` in [`text_le`] order.
pub fn text_le_exec(a: &str, b: &str) -> (r: bool)
    ensures
        r == text_le(a@, b@),
{
    let la = a.unicode_len();
    let lb = b.unicode_len();
    let mut i: usize = 0;
    assert(a@.skip(0) =~= a@);
    assert(b@.skip(0) =~= b@);
    while i < la && i < lb
        invariant
            la == a@.len(),
            lb == b@.len(),
            i <= la,
            i <= lb,
            forall|k: int| 0 <= k < i ==> a@[k] == b@[k],
            text_le(a@, b@) == text_le(a@.skip(i as int), b@.skip(i as int)),
        decreases la - i,
    {
        let ca = a.get_char(i);
        let cb = b.get_char(i);
        if ca != cb {
            assert(a@.skip(i as int)[0] == ca);
            assert(b@.skip(i as int)[0] == cb);
            return ca < cb;
        }
        assert(a@.skip(i as int).drop_first() =~= a@.skip(i + 1));
        assert(b@.skip(i as int).drop_first() =~= b@.skip(i + 1));
        i = i + 1;
    }
    i == la
}

/// Insert `x` into a strictly sorted vector of strings, keeping it strictly sorted
/// and leaving it unchanged when `x` is already present.
pub fn insert_sorted_unique(v: &mut Vec<String>, x: String)
    requires
        strictly_sorted(views(old(v)@)),
    ensures
        strictly_sorted(views(final(v)@)),
        views(final(v)@).to_set() == views(old(v)@).to_set().insert(x@),
{
    let ghost old_views = views(v@);
    let n = v.len();
    let mut i: usize = 0;
    let mut searching = true;
    while searching && i < n
        invariant
            n == v.len(),
            v@ == old(v)@,
            old_views == views(v@),
            strictly_sorted(old_views),
            i <= n,
            !searching ==> i < n && !text_le(old_views[i as int], x@),
            forall|k: int| 0 <= k < i ==> #[trigger] text_lt(old_views[k], x@),
        decreases n - i + (if searching { 1int } else { 0int }),
    {
        if text_eq(v[i].as_str(), x.as_str()) {
            assert(views(v@)[i as int] == x@);
            assert(views(v@).to_set() =~= views(v@).to_set().insert(x@));
            return;
        }
        if !text_le_exec(v[i].as_str(), x.as_str()) {
            searching = false;
        } else {
            i = i + 1;
        }
    }
    proof {
        lemma_text_le_total_ordering();
    }
    let ghost pos = i;
    v.insert(i, x);
    let ghost new_views = views(v@);
    assert(new_views =~= old_views.insert(pos as int, x@));
    assert forall|a: int, b: int| 0 <= a < b < new_views.len() implies #[trigger] text_lt(new_views[a], new_views[b]) by {
        if b < pos {
        } else if a > pos {
            assert(new_views[a] == old_views[a - 1]);
            assert(new_views[b] == old_views[b - 1]);
        } else if a == pos {
            // x comes before every later element
            assert(new_views[b] == old_views[b - 1]);
            if b - 1 > pos {
                assert(text_lt(old_views[pos as int], old_views[b - 1]));
                assert(!text_le(old_views[pos as int], x@));
                lemma_text_le_total(old_views[pos as int], x@);
                lemma_text_le_transitive(x@, old_views[pos as int], old_views[b - 1]);
                if x@ == old_views[b - 1] {
                    lemma_text_le_antisymmetric(old_views[pos as int], x@);
                }
            } else {
                assert(!text_le(old_views[pos as int], x@));
                lemma_text_le_total(old_views[pos as int], x@);
                if x@ == old_views[pos as int] {
                    lemma_text_le_reflexive(x@);
                }
            }
        } else {
            // a < pos == b or a < pos < b
            if b == pos {
                assert(text_lt(old_views[a], x@));
            } else {
                assert(new_views[b] == old_views[b - 1]);
            }
        }
    }
    assert(new_views.to_set() =~= old_views.to_set().insert(x@)) by {
        assert forall|e: Seq<char>| new_views.to_set().contains(e) implies old_views.to_set().insert(x@).contains(e) by {
            let k = choose|k: int| 0 <= k < new_views.len() && new_views[k] == e;
            if k < pos {
            } else if k > pos {
                assert(old_views[k - 1] == e);
            }
        }
        assert forall|e: Seq<char>| old_views.to_set().insert(x@).contains(e) implies new_views.to_set().contains(e) by {
            if e == x@ {
                assert(new_views[pos as int] == e);
            } else {
                let k = choose|k: int| 0 <= k < old_views.len() && old_views[k] == e;
                if k < pos {
                    assert(new_views[k] == e);
                } else {
                    assert(new_views[k + 1] == e);
                }
            }
        }
    }
}


/// The decimal digit character for `d` (for `d < 10`).
pub open spec fn digit_char(d: nat) -> char {
    if d == 0 {
        '0'
    } else if d == 1 {
        '1'
    } else if d == 2 {
        '2'
    } else if d == 3 {
        '3'
    } else if d == 4 {
        '4'
    } else if d == 5 {
        '5'
    } else if d == 6 {
        '6'
    } else if d == 7 {
        '7'
    } else if d == 8 {
        '8'
    } else {
        '9'
    }
}

/// Decimal text of `n`, most significant digit first, without leading zeros.
pub open spec fn decimal(n: nat) -> Seq<char>
    decreases n,
{
    if n < 10 {
        seq![digit_char(n)]
    } else {
        decimal(n / 10) + seq![digit_char(n % 10)]
    }
}

fn digit_str(d: u64) -> (s: &'static str)
    requires
        d < 10,
    ensures
        s@ == seq![digit_char(d as nat)],
{
    proof {
        reveal_strlit("0");
        reveal_strlit("1");
        reveal_strlit("2");
        reveal_strlit("3");
        reveal_strlit("4");
        reveal_strlit("5");
        reveal_strlit("6");
        reveal_strlit("7");
        reveal_strlit("8");
        reveal_strlit("9");
    }
    if d == 0 {
        "0"
    } else if d == 1 {
        "1"
    } else if d == 2 {
        "2"
    } else if d == 3 {
        "3"
    } else if d == 4 {
        "4"
    } else if d == 5 {
        "5"
    } else if d == 6 {
        "6"
    } else if d == 7 {
        "7"
    } else if d == 8 {
        "8"
    } else {
        "9"
    }
}

/// Append the decimal text of `n` to `s`.
pub fn append_decimal(s: &mut String, n: u64)
    ensures
        final(s)@ == old(s)@ + decimal(n as nat),
    decreases n,
{
    if n >= 10 {
        append_decimal(s, n / 10);
    }
    s.append(digit_str(n % 10));
    assert(decimal(n as nat) == if n < 10 {
        seq![digit_char(n as nat)]
    } else {
        decimal((n / 10) as nat) + seq![digit_char((n % 10) as nat)]
    });
}

} // verus!
