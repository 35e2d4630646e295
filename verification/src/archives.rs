//! Archive file names and the rotation that keeps only the newest archives.
use vstd::prelude::*;
use vstd::relations::{sorted_by, total_ordering};

use crate::pathname::is_plain_name;
use crate::text::{
    all_digits, chars_eq, chars_of, decimal, digit_value, digits_value, is_digit,
    lemma_decimal_digits, lemma_pow10_positive, pow10, push_zero_padded, string_of, string_views, zero_padded,
};

verus! {

broadcast use vstd::seq_lib::group_to_multiset_ensures;

/// Whether `p` is a prefix of `s`.
pub open spec fn is_prefix_of(p: Seq<char>, s: Seq<char>) -> bool {
    p.len() <= s.len() && s.take(p.len() as int) == p
}

/// Whether `p` is a suffix of `s`.
pub open spec fn is_suffix_of(p: Seq<char>, s: Seq<char>) -> bool {
    p.len() <= s.len() && s.skip(s.len() - p.len()) == p
}

/// Whether a file name in the destination directory names an archive.
pub open spec fn is_archive_name(name: Seq<char>) -> bool {
    is_prefix_of("backup-"@, name) && is_suffix_of(".tar.zst.age"@, name)
}

/// The name of the archive made at `ts` seconds after the Unix epoch: the timestamp is
/// written with twenty digits, zero-padded.
pub open spec fn archive_name(ts: u64) -> Seq<char> {
    "backup-"@ + zero_padded(decimal(ts as nat), 20) + ".tar.zst.age"@
}

/// The name an archive has while it is being written.
pub open spec fn part_name(ts: u64) -> Seq<char> {
    archive_name(ts) + ".part"@
}

/// Lexicographic order of character sequences, by code point; for UTF-8 file names it is the
/// byte order in which paths compare.
pub open spec fn lex_le(a: Seq<char>, b: Seq<char>) -> bool
    decreases a.len(),
{
    if a.len() == 0 {
        true
    } else if b.len() == 0 {
        false
    } else if a[0] != b[0] {
        a[0] < b[0]
    } else {
        lex_le(a.drop_first(), b.drop_first())
    }
}

/// `lex_le` as a relation.
pub open spec fn lex_order() -> spec_fn(Seq<char>, Seq<char>) -> bool {
    |a: Seq<char>, b: Seq<char>| lex_le(a, b)
}

/// The archive names among `names`, in their order.
pub open spec fn archive_names(names: Seq<Seq<char>>) -> Seq<Seq<char>> {
    names.filter(archive_pred())
}

/// `is_archive_name` as a predicate.
pub open spec fn archive_pred() -> spec_fn(Seq<char>) -> bool {
    |n: Seq<char>| is_archive_name(n)
}

/// How many archives go when `count` are present and `keep` are kept.
pub open spec fn surplus(count: nat, keep: nat) -> nat {
    if count > keep {
        (count - keep) as nat
    } else {
        0
    }
}

/// The archives that rotation deletes from a directory holding `names`: all archive names
/// in ascending order, less the `keep` last.
pub open spec fn rotation_deletions(names: Seq<Seq<char>>, keep: nat) -> Seq<Seq<char>> {
    let sorted = archive_names(names).sort_by(lex_order());
    sorted.take(surplus(sorted.len(), keep) as int)
}

proof fn lemma_lex_reflexive(a: Seq<char>)
    ensures
        lex_le(a, a),
    decreases a.len(),
{
    if a.len() > 0 {
        lemma_lex_reflexive(a.drop_first());
    }
}

proof fn lemma_lex_antisymmetric(a: Seq<char>, b: Seq<char>)
    requires
        lex_le(a, b),
        lex_le(b, a),
    ensures
        a == b,
    decreases a.len(),
{
    if a.len() > 0 && b.len() > 0 {
        if a[0] == b[0] {
            lemma_lex_antisymmetric(a.drop_first(), b.drop_first());
            assert(a =~= seq![a[0]] + a.drop_first());
            assert(b =~= seq![b[0]] + b.drop_first());
        }
    }
}

proof fn lemma_lex_transitive(a: Seq<char>, b: Seq<char>, c: Seq<char>)
    requires
        lex_le(a, b),
        lex_le(b, c),
    ensures
        lex_le(a, c),
    decreases a.len(),
{
    if a.len() > 0 && b.len() > 0 && c.len() > 0 {
        if a[0] == b[0] && b[0] == c[0] {
            lemma_lex_transitive(a.drop_first(), b.drop_first(), c.drop_first());
        }
    }
}

proof fn lemma_lex_connected(a: Seq<char>, b: Seq<char>)
    ensures
        lex_le(a, b) || lex_le(b, a),
    decreases a.len(),
{
    if a.len() > 0 && b.len() > 0 {
        if a[0] == b[0] {
            lemma_lex_connected(a.drop_first(), b.drop_first());
        }
    }
}

/// Lexicographic order is a total order.
pub proof fn lemma_lex_total()
    ensures
        total_ordering(lex_order()),
{
    assert forall|a: Seq<char>| #[trigger] lex_order()(a, a) by {
        lemma_lex_reflexive(a);
    }
    assert forall|a: Seq<char>, b: Seq<char>|
        #[trigger] lex_order()(a, b) && #[trigger] lex_order()(b, a) implies a == b by {
        lemma_lex_antisymmetric(a, b);
    }
    assert forall|a: Seq<char>, b: Seq<char>, c: Seq<char>|
        #[trigger] lex_order()(a, b) && #[trigger] lex_order()(b, c) implies lex_order()(
        a,
        c,
    ) by {
        lemma_lex_transitive(a, b, c);
    }
    assert forall|a: Seq<char>, b: Seq<char>|
        #[trigger] lex_order()(a, b) || #[trigger] lex_order()(b, a) by {
        lemma_lex_connected(a, b);
    }
}

/// Whether `a` comes before or equals `b` in lexicographic order.
pub fn lex_le_chars(a: &Vec<char>, b: &Vec<char>) -> (r: bool)
    ensures
        r == lex_le(a@, b@),
{
    let n = if a.len() < b.len() {
        a.len()
    } else {
        b.len()
    };
    assert(a@.skip(0) =~= a@);
    assert(b@.skip(0) =~= b@);
    for i in 0..n
        invariant
            n <= a.len(),
            n <= b.len(),
            n == a.len() || n == b.len(),
            lex_le(a@, b@) == lex_le(a@.skip(i as int), b@.skip(i as int)),
    {
        assert(a@.skip(i as int).drop_first() =~= a@.skip(i + 1));
        assert(b@.skip(i as int).drop_first() =~= b@.skip(i + 1));
        assert(a@.skip(i as int)[0] == a@[i as int]);
        assert(b@.skip(i as int)[0] == b@[i as int]);
        if a[i] != b[i] {
            return a[i] < b[i];
        }
    }
    a.len() <= b.len()
}

/// Whether `name` names an archive.
pub fn is_archive_file_name(name: &Vec<char>) -> (r: bool)
    ensures
        r == is_archive_name(name@),
{
    let prefix = chars_of("backup-");
    let suffix = chars_of(".tar.zst.age");
    let n = name.len();
    if prefix.len() > n || suffix.len() > n {
        return false;
    }
    let mut head: Vec<char> = Vec::new();
    for i in 0..prefix.len()
        invariant
            prefix.len() <= n == name.len(),
            head@ == name@.take(i as int),
    {
        head.push(name[i]);
        assert(name@.take(i + 1) == name@.take(i as int).push(name@[i as int]));
    }
    let start = n - suffix.len();
    let mut tail: Vec<char> = Vec::new();
    for i in start..n
        invariant
            start <= n == name.len(),
            tail@ == name@.subrange(start as int, i as int),
    {
        tail.push(name[i]);
        assert(name@.subrange(start as int, i + 1) == name@.subrange(start as int, i as int).push(
            name@[i as int],
        ));
    }
    assert(name@.take(prefix.len() as int) == head@);
    assert(name@.skip(start as int) =~= tail@);
    chars_eq(&head, &prefix) && chars_eq(&tail, &suffix)
}

/// The name of the archive made at `ts` seconds after the Unix epoch.
pub fn archive_file_name(ts: u64) -> (s: String)
    ensures
        s@ == archive_name(ts),
{
    let mut s = String::new();
    s.append("backup-");
    push_zero_padded(&mut s, ts, 20);
    s.append(".tar.zst.age");
    s
}

/// The name of the archive made at `ts` while it is being written.
pub fn part_file_name(ts: u64) -> (s: String)
    ensures
        s@ == part_name(ts),
{
    let mut s = archive_file_name(ts);
    s.append(".part");
    s
}

fn insert_sorted(r: &mut Vec<Vec<char>>, x: Vec<char>)
    requires
        sorted_by(views_of(old(r)@), lex_order()),
    ensures
        sorted_by(views_of(final(r)@), lex_order()),
        views_of(final(r)@).to_multiset() == views_of(old(r)@).to_multiset().insert(x@),
{
    proof {
        lemma_lex_total();
    }
    let ghost before = views_of(r@);
    let n = r.len();
    let mut p: usize = 0;
    while p < n && lex_le_chars(&r[p], &x)
        invariant
            n == r.len(),
            p <= n,
            before == views_of(r@),
            forall|j: int| 0 <= j < p ==> lex_le(#[trigger] before[j], x@),
        decreases n - p,
    {
        p = p + 1;
    }
    let ghost xv = x@;
    r.insert(p, x);
    proof {
        let after = views_of(r@);
        assert(after =~= before.insert(p as int, xv));
        to_multiset_insert_view(before, p as int, xv);
        assert forall|i: int, j: int| 0 <= i < j < after.len() implies #[trigger] lex_order()(
            after[i],
            after[j],
        ) by {
            if j < p {
                assert(lex_order()(before[i], before[j]));
            } else if j == p {
                assert(lex_le(before[i], xv));
            } else if i < p {
                assert(lex_order()(before[i], before[j - 1]));
            } else if i == p {
                assert(!lex_le(before[p as int], xv));
                lemma_lex_connected(before[p as int], xv);
                if j - 1 > p {
                    assert(lex_order()(before[p as int], before[j - 1]));
                    lemma_lex_transitive(xv, before[p as int], before[j - 1]);
                }
            } else {
                assert(lex_order()(before[i - 1], before[j - 1]));
            }
        }
    }
}

proof fn to_multiset_insert_view(s: Seq<Seq<char>>, i: int, a: Seq<char>)
    requires
        0 <= i <= s.len(),
    ensures
        s.insert(i, a).to_multiset() == s.to_multiset().insert(a),
{
    vstd::seq_lib::to_multiset_insert(s, i, a);
}

/// The views of a sequence of character vectors.
pub open spec fn views_of(v: Seq<Vec<char>>) -> Seq<Seq<char>> {
    v.map_values(|c: Vec<char>| c@)
}

/// The file names, among `names` (the entries of the destination directory), of the archives
/// that rotation deletes so that `keep` archives remain: the oldest, as archive names sort.
pub fn select_for_deletion(names: &Vec<String>, keep: usize) -> (r: Vec<String>)
    ensures
        string_views(r@) == rotation_deletions(string_views(names@), keep as nat),
{
    let ghost all = string_views(names@);
    let ghost pred = archive_pred();
    let mut sorted: Vec<Vec<char>> = Vec::new();
    let ghost mut kept: Seq<Seq<char>> = seq![];
    let n = names.len();
    assert(all.take(0).filter(pred) =~= Seq::<Seq<char>>::empty()) by {
        reveal(Seq::filter);
    }
    for i in 0..n
        invariant
            n == names.len(),
            all == string_views(names@),
            pred == archive_pred(),
            kept == all.take(i as int).filter(pred),
            sorted_by(views_of(sorted@), lex_order()),
            views_of(sorted@).to_multiset() == kept.to_multiset(),
    {
        let v = chars_of(names[i].as_str());
        assert(all.take(i + 1).filter(pred) == if pred(v@) {
            all.take(i as int).filter(pred).push(v@)
        } else {
            all.take(i as int).filter(pred)
        }) by {
            assert(all.take(i + 1).drop_last() =~= all.take(i as int));
            assert(all.take(i + 1).last() == v@);
            reveal(Seq::filter);
        }
        assert(pred(v@) == is_archive_name(v@));
        assert(all[i as int] == v@);
        if is_archive_file_name(&v) {
            insert_sorted(&mut sorted, v);
            proof {
                vstd::seq_lib::to_multiset_build(kept, all[i as int]);
                kept = kept.push(all[i as int]);
            }
        }
        assert(kept == all.take(i + 1).filter(pred));
    }
    assert(all.take(n as int) =~= all);
    proof {
        lemma_lex_total();
        archive_names(all).lemma_sort_by_ensures(lex_order());
        assert(archive_names(all) == kept);
        vstd::seq_lib::lemma_sorted_unique(
            views_of(sorted@),
            archive_names(all).sort_by(lex_order()),
            lex_order(),
        );
    }
    let count = sorted.len();
    let drop = if count > keep {
        count - keep
    } else {
        0
    };
    let mut out: Vec<String> = Vec::new();
    for j in 0..drop
        invariant
            drop <= count == sorted.len(),
            string_views(out@) == views_of(sorted@).take(j as int),
    {
        let s = string_of(&sorted[j]);
        assert(views_of(sorted@)[j as int] == s@);
        out.push(s);
        assert(views_of(sorted@).take(j + 1) =~= views_of(sorted@).take(j as int).push(s@));
        assert(string_views(out@) =~= views_of(sorted@).take(j + 1));
    }
    assert(string_views(out@) =~= rotation_deletions(all, keep as nat));
    out
}


proof fn lemma_lex_common_prefix(p: Seq<char>, a: Seq<char>, b: Seq<char>)
    ensures
        lex_le(p + a, p + b) == lex_le(a, b),
    decreases p.len(),
{
    if p.len() > 0 {
        assert((p + a).drop_first() =~= p.drop_first() + a);
        assert((p + b).drop_first() =~= p.drop_first() + b);
        lemma_lex_common_prefix(p.drop_first(), a, b);
    } else {
        assert(p + a =~= a);
        assert(p + b =~= b);
    }
}

proof fn lemma_lex_same_length_head(x: Seq<char>, y: Seq<char>, s: Seq<char>, t: Seq<char>)
    requires
        x.len() == y.len(),
    ensures
        x == y ==> lex_le(x + s, y + t) == lex_le(s, t),
        x != y ==> lex_le(x + s, y + t) == lex_le(x, y),
    decreases x.len(),
{
    if x.len() == 0 {
        assert(x =~= y);
        assert(x + s =~= s);
        assert(y + t =~= t);
    } else {
        assert((x + s).drop_first() =~= x.drop_first() + s);
        assert((y + t).drop_first() =~= y.drop_first() + t);
        lemma_lex_same_length_head(x.drop_first(), y.drop_first(), s, t);
        if x[0] == y[0] && x.drop_first() == y.drop_first() {
            assert(x =~= seq![x[0]] + x.drop_first());
            assert(y =~= seq![y[0]] + y.drop_first());
        }
    }
}

proof fn lemma_digits_value_split_first(a: Seq<char>)
    requires
        a.len() > 0,
    ensures
        digits_value(a) == digit_value(a[0]) * pow10((a.len() - 1) as nat) + digits_value(
            a.drop_first(),
        ),
    decreases a.len(),
{
    if a.len() == 1 {
        assert(a.drop_last() =~= Seq::<char>::empty());
        assert(a.drop_first() =~= Seq::<char>::empty());
        assert(pow10(0) == 1);
        assert(digits_value(a.drop_last()) == 0);
        assert(a.last() == a[0]);
        assert(digits_value(a) == digit_value(a[0]));
    } else {
        let init = a.drop_last();
        lemma_digits_value_split_first(init);
        let rest = a.drop_first();
        assert(init.drop_first() =~= rest.drop_last());
        assert(rest.last() == a.last());
        assert(init[0] == a[0]);
        let d0 = digit_value(a[0]);
        let k = (a.len() - 2) as nat;
        let x = digits_value(init.drop_first());
        let l = digit_value(a.last());
        assert(digits_value(a) == digits_value(init) * 10 + l);
        assert(digits_value(init) == d0 * pow10(k) + x);
        assert(digits_value(rest) == x * 10 + l);
        assert(pow10((k + 1) as nat) == 10 * pow10(k));
        assert((d0 * pow10(k) + x) * 10 + l == d0 * (10 * pow10(k)) + (x * 10 + l))
            by (nonlinear_arith);
    }
}

proof fn lemma_digits_value_bound(a: Seq<char>)
    requires
        all_digits(a),
    ensures
        digits_value(a) < pow10(a.len()),
    decreases a.len(),
{
    if a.len() > 0 {
        let init = a.drop_last();
        assert(all_digits(init)) by {
            assert forall|i: int| 0 <= i < init.len() implies is_digit(#[trigger] init[i]) by {
                assert(init[i] == a[i]);
            }
        }
        lemma_digits_value_bound(init);
        assert(is_digit(a[a.len() - 1]));
        let k = (a.len() - 1) as nat;
        assert(digits_value(init) + 1 <= pow10(k));
        assert(digits_value(init) * 10 + digit_value(a.last()) < pow10(k) * 10) by (nonlinear_arith)
            requires
                digits_value(init) + 1 <= pow10(k),
                digit_value(a.last()) < 10,
        ;
    }
}

proof fn lemma_digits_lex_is_numeric(a: Seq<char>, b: Seq<char>)
    requires
        a.len() == b.len(),
        all_digits(a),
        all_digits(b),
    ensures
        lex_le(a, b) == (digits_value(a) <= digits_value(b)),
    decreases a.len(),
{
    if a.len() > 0 {
        let ra = a.drop_first();
        let rb = b.drop_first();
        assert(all_digits(ra)) by {
            assert forall|i: int| 0 <= i < ra.len() implies is_digit(#[trigger] ra[i]) by {
                assert(ra[i] == a[i + 1]);
            }
        }
        assert(all_digits(rb)) by {
            assert forall|i: int| 0 <= i < rb.len() implies is_digit(#[trigger] rb[i]) by {
                assert(rb[i] == b[i + 1]);
            }
        }
        lemma_digits_lex_is_numeric(ra, rb);
        lemma_digits_value_split_first(a);
        lemma_digits_value_split_first(b);
        lemma_digits_value_bound(ra);
        lemma_digits_value_bound(rb);
        let p = pow10((a.len() - 1) as nat);
        assert(is_digit(a[0]) && is_digit(b[0]));
        let da = digit_value(a[0]);
        let db = digit_value(b[0]);
        if da < db {
            assert(da * p + digits_value(ra) < db * p + digits_value(rb)) by (nonlinear_arith)
                requires
                    da + 1 <= db,
                    digits_value(ra) < p,
            ;
        } else if db < da {
            assert(db * p + digits_value(rb) < da * p + digits_value(ra)) by (nonlinear_arith)
                requires
                    db + 1 <= da,
                    digits_value(rb) < p,
            ;
        } else {
            assert(a[0] == b[0]);
        }
    }
}

proof fn lemma_zero_padded_digits(d: Seq<char>, width: nat)
    requires
        all_digits(d),
    ensures
        all_digits(zero_padded(d, width)),
        digits_value(zero_padded(d, width)) == digits_value(d),
        d.len() <= width ==> zero_padded(d, width).len() == width,
{
    if d.len() < width {
        let z = Seq::new((width - d.len()) as nat, |i: int| '0');
        lemma_zeros_value(z, d);
        let zp = z + d;
        assert forall|i: int| 0 <= i < zp.len() implies is_digit(#[trigger] zp[i]) by {
            if i >= z.len() {
                assert(zp[i] == d[i - z.len()]);
            }
        }
    }
}

proof fn lemma_zeros_value(z: Seq<char>, d: Seq<char>)
    requires
        forall|i: int| 0 <= i < z.len() ==> z[i] == '0',
    ensures
        digits_value(z + d) == digits_value(d),
    decreases z.len() + d.len(),
{
    if d.len() == 0 {
        assert(z + d =~= z);
        if z.len() > 0 {
            lemma_zeros_value(z.drop_last(), d);
            assert(z.drop_last() + d =~= z.drop_last());
        }
    } else {
        assert((z + d).drop_last() =~= z + d.drop_last());
        assert((z + d).last() == d.last());
        lemma_zeros_value(z, d.drop_last());
    }
}

proof fn lemma_padded_timestamp(ts: u64)
    ensures
        zero_padded(decimal(ts as nat), 20).len() == 20,
        all_digits(zero_padded(decimal(ts as nat), 20)),
        digits_value(zero_padded(decimal(ts as nat), 20)) == ts,
{
    lemma_decimal_digits(ts as nat);
    let d = decimal(ts as nat);
    if d.len() > 20 {
        assert(pow10(20) == 100000000000000000000nat) by {
            reveal_with_fuel(pow10, 21);
        }
        lemma_pow10_monotone(20, (d.len() - 1) as nat);
        assert(false);
    }
    lemma_zero_padded_digits(d, 20);
}

proof fn lemma_pow10_monotone(j: nat, k: nat)
    requires
        j <= k,
    ensures
        pow10(j) <= pow10(k),
    decreases k,
{
    if j < k {
        lemma_pow10_monotone(j, (k - 1) as nat);
        lemma_pow10_positive((k - 1) as nat);
    }
}

/// The name of every archive is recognised as an archive name by rotation.
pub proof fn lemma_archive_name_recognised(ts: u64)
    ensures
        is_archive_name(archive_name(ts)),
{
    let n = archive_name(ts);
    let mid = zero_padded(decimal(ts as nat), 20);
    assert(n.take("backup-"@.len() as int) =~= "backup-"@);
    assert(n.skip(n.len() - ".tar.zst.age"@.len()) =~= ".tar.zst.age"@);
}

/// The name of an archive, and of its partial file, is a single plain path component:
/// pushed onto the destination it names a file directly inside it.
pub proof fn lemma_archive_names_plain(ts: u64)
    ensures
        is_plain_name(archive_name(ts)),
        is_plain_name(part_name(ts)),
{
    reveal_strlit("backup-");
    reveal_strlit(".tar.zst.age");
    reveal_strlit(".part");
    lemma_padded_timestamp(ts);
    let mid = zero_padded(decimal(ts as nat), 20);
    let n = archive_name(ts);
    assert(n.len() == 39);
    assert forall|i: int| 0 <= i < n.len() implies n[i] != '/' by {
        if 7 <= i < 27 {
            assert(n[i] == mid[i - 7]);
            assert(is_digit(mid[i - 7]));
        }
    }
    let p = part_name(ts);
    assert forall|i: int| 0 <= i < p.len() implies p[i] != '/' by {
        if i < 39 {
            assert(p[i] == n[i]);
        }
    }
    assert(n.len() != 1 && n.len() != 2);
    assert(n != seq!['.']);
    assert(n != seq!['.', '.']);
    assert(p != seq!['.']);
    assert(p != seq!['.', '.']);
}

/// Archive names sort as their timestamps do: the name of the archive made at `t1` comes
/// before or equals that of the archive made at `t2` exactly when `t1 <= t2`.
pub proof fn lemma_archive_names_sort_by_time(t1: u64, t2: u64)
    ensures
        lex_le(archive_name(t1), archive_name(t2)) == (t1 <= t2),
{
    let p1 = zero_padded(decimal(t1 as nat), 20);
    let p2 = zero_padded(decimal(t2 as nat), 20);
    lemma_padded_timestamp(t1);
    lemma_padded_timestamp(t2);
    let sfx = ".tar.zst.age"@;
    assert(archive_name(t1) =~= "backup-"@ + (p1 + sfx));
    assert(archive_name(t2) =~= "backup-"@ + (p2 + sfx));
    lemma_lex_common_prefix("backup-"@, p1 + sfx, p2 + sfx);
    lemma_lex_same_length_head(p1, p2, sfx, sfx);
    lemma_digits_lex_is_numeric(p1, p2);
    if p1 == p2 {
        lemma_lex_reflexive(sfx);
    }
}


/// Rotation deletes as many archives as exceed `keep`, deletes only archives that are in the
/// directory, and every archive it deletes sorts before every archive it leaves.
pub proof fn lemma_rotation_deletes_oldest(names: Seq<Seq<char>>, keep: nat)
    ensures
        rotation_deletions(names, keep).len() == surplus(archive_names(names).len(), keep),
        forall|i: int|
            0 <= i < rotation_deletions(names, keep).len() ==> {
                &&& is_archive_name(#[trigger] rotation_deletions(names, keep)[i])
                &&& names.contains(rotation_deletions(names, keep)[i])
            },
        forall|i: int, j: int|
            0 <= i < rotation_deletions(names, keep).len() && 0 <= j < archive_names(names).len()
                && !rotation_deletions(names, keep).contains(#[trigger] archive_names(names)[j])
                ==> lex_le(#[trigger] rotation_deletions(names, keep)[i], archive_names(names)[j]),
{
    broadcast use vstd::seq_lib::group_filter_ensures;

    let arch = archive_names(names);
    let sorted = arch.sort_by(lex_order());
    let del = rotation_deletions(names, keep);
    lemma_lex_total();
    arch.lemma_sort_by_ensures(lex_order());
    assert(sorted.len() == arch.len()) by {
        assert(sorted.to_multiset().len() == arch.to_multiset().len());
    }
    assert forall|i: int| 0 <= i < del.len() implies {
        &&& is_archive_name(#[trigger] del[i])
        &&& names.contains(del[i])
    } by {
        assert(del[i] == sorted[i]);
        assert(sorted.contains(sorted[i]));
        assert(arch.contains(del[i]));
        let k = choose|k: int| 0 <= k < arch.len() && arch[k] == del[i];
        assert(archive_pred()(arch[k]));
        names.lemma_filter_contains_rev(archive_pred(), del[i]);
    }
    assert forall|i: int, j: int|
        0 <= i < del.len() && 0 <= j < arch.len() && !del.contains(#[trigger] arch[j]) implies lex_le(
        #[trigger] del[i],
        arch[j],
    ) by {
        let y = arch[j];
        assert(arch.to_multiset().count(y) > 0);
        assert(sorted.to_multiset().count(y) > 0);
        assert(sorted.contains(y));
        let p = choose|p: int| 0 <= p < sorted.len() && sorted[p] == y;
        if p < del.len() {
            assert(del[p] == y);
            assert(del.contains(y));
        }
        assert(del[i] == sorted[i]);
        if i < p {
            assert(lex_order()(sorted[i], sorted[p]));
        }
    }
}


proof fn lemma_filter_no_duplicates(s: Seq<Seq<char>>, p: spec_fn(Seq<char>) -> bool)
    requires
        s.no_duplicates(),
    ensures
        s.filter(p).no_duplicates(),
    decreases s.len(),
{
    reveal(Seq::filter);
    if s.len() > 0 {
        let init = s.drop_last();
        assert(init.no_duplicates());
        lemma_filter_no_duplicates(init, p);
        if p(s.last()) {
            let f = init.filter(p);
            if f.contains(s.last()) {
                init.lemma_filter_contains_rev(p, s.last());
                let k = choose|k: int| 0 <= k < init.len() && init[k] == s.last();
                assert(s[k] == s[s.len() - 1]);
            }
            assert forall|i: int, j: int|
                0 <= i < f.push(s.last()).len() && 0 <= j < f.push(s.last()).len() && i != j implies
                f.push(s.last())[i] != f.push(s.last())[j] by {
                if i == f.len() {
                    assert(f.contains(f[j]));
                } else if j == f.len() {
                    assert(f.contains(f[i]));
                }
            }
        }
    }
}

/// With at least one archive kept, rotation never deletes the newest archive in the
/// directory: the one whose name sorts last, which by `lemma_archive_names_sort_by_time` is
/// the one made latest, such as the archive the run has just put in place.
pub proof fn lemma_rotation_spares_newest(names: Seq<Seq<char>>, keep: nat, newest: Seq<char>)
    requires
        keep >= 1,
        names.no_duplicates(),
        names.contains(newest),
        is_archive_name(newest),
        forall|n: Seq<char>| names.contains(n) && is_archive_name(n) ==> #[trigger] lex_le(n, newest),
    ensures
        !rotation_deletions(names, keep).contains(newest),
{
    broadcast use vstd::seq_lib::group_filter_ensures;

    let arch = archive_names(names);
    let sorted = arch.sort_by(lex_order());
    let del = rotation_deletions(names, keep);
    lemma_lex_total();
    arch.lemma_sort_by_ensures(lex_order());
    lemma_filter_no_duplicates(names, archive_pred());
    arch.lemma_multiset_has_no_duplicates();
    sorted.lemma_multiset_has_no_duplicates_conv();
    assert(sorted.len() == arch.len()) by {
        assert(sorted.to_multiset().len() == arch.to_multiset().len());
    }
    let k = choose|k: int| 0 <= k < names.len() && names[k] == newest;
    assert(archive_pred()(names[k]));
    assert(arch.contains(newest));
    if del.contains(newest) {
        let i = choose|i: int| 0 <= i < del.len() && del[i] == newest;
        let last = sorted.len() - 1;
        assert(i < last);
        let y = sorted[last];
        assert(sorted.contains(y));
        assert(arch.contains(y));
        names.lemma_filter_contains_rev(archive_pred(), y);
        let j = choose|j: int| 0 <= j < arch.len() && arch[j] == y;
        assert(archive_pred()(arch[j]));
        assert(lex_le(y, newest));
        assert(del[i] == sorted[i]);
        assert(lex_order()(sorted[i], sorted[last]));
        lemma_lex_antisymmetric(newest, y);
        assert(sorted[i] == sorted[last]);
    }
}

/// The names left in a directory holding `names` once rotation has deleted what it chose.
pub open spec fn after_rotation(names: Seq<Seq<char>>, keep: nat) -> Seq<Seq<char>> {
    names.filter(|n: Seq<char>| !rotation_deletions(names, keep).contains(n))
}

/// The archives that rotation chooses to delete are distinct.
pub proof fn lemma_deletions_distinct(names: Seq<Seq<char>>, keep: nat)
    requires
        names.no_duplicates(),
    ensures
        rotation_deletions(names, keep).no_duplicates(),
{
    let arch = archive_names(names);
    let sorted = arch.sort_by(lex_order());
    lemma_lex_total();
    arch.lemma_sort_by_ensures(lex_order());
    lemma_filter_no_duplicates(names, archive_pred());
    arch.lemma_multiset_has_no_duplicates();
    sorted.lemma_multiset_has_no_duplicates_conv();
}

/// Rotation deletes nothing from a directory that holds at most `keep` archives.
pub proof fn lemma_rotation_within_keep(names: Seq<Seq<char>>, keep: nat)
    requires
        archive_names(names).len() <= keep,
    ensures
        rotation_deletions(names, keep) == Seq::<Seq<char>>::empty(),
{
    let arch = archive_names(names);
    let sorted = arch.sort_by(lex_order());
    lemma_lex_total();
    arch.lemma_sort_by_ensures(lex_order());
    assert(sorted.len() == arch.len()) by {
        assert(sorted.to_multiset().len() == arch.to_multiset().len());
    }
    assert(rotation_deletions(names, keep) =~= Seq::<Seq<char>>::empty());
}

/// Rotating twice deletes nothing the second time: once rotation has deleted what it chose
/// from a directory whose names are distinct, rotating the directory left behind, with the
/// same number to keep, chooses nothing.
pub proof fn lemma_second_rotation_deletes_nothing(names: Seq<Seq<char>>, keep: nat)
    requires
        names.no_duplicates(),
    ensures
        rotation_deletions(after_rotation(names, keep), keep) == Seq::<Seq<char>>::empty(),
{
    broadcast use vstd::seq_lib::group_filter_ensures;
    broadcast use vstd::set_lib::group_set_properties;

    let del = rotation_deletions(names, keep);
    let arch = archive_names(names);
    let rest = after_rotation(names, keep);
    let pred = |n: Seq<char>| !rotation_deletions(names, keep).contains(n);
    let arch2 = archive_names(rest);
    lemma_rotation_deletes_oldest(names, keep);
    lemma_deletions_distinct(names, keep);
    lemma_filter_no_duplicates(names, archive_pred());
    lemma_filter_no_duplicates(names, pred);
    lemma_filter_no_duplicates(rest, archive_pred());
    let a = arch.to_set();
    let d = del.to_set();
    assert(d.subset_of(a)) by {
        assert forall|x: Seq<char>| d.contains(x) implies a.contains(x) by {
            let i = choose|i: int| 0 <= i < del.len() && del[i] == x;
            assert(is_archive_name(del[i]) && names.contains(del[i]));
            names.lemma_filter_contains_rev(archive_pred(), x);
            assert(archive_pred()(x));
        }
    }
    assert(arch2.to_set() =~= a.difference(d)) by {
        assert forall|x: Seq<char>| arch2.to_set().contains(x) <==> a.difference(d).contains(x) by {
            if arch2.contains(x) {
                rest.lemma_filter_contains_rev(archive_pred(), x);
                names.lemma_filter_contains_rev(pred, x);
                assert(archive_pred()(x));
                assert(pred(x));
                names.lemma_filter_contains_rev(archive_pred(), x);
                let k = choose|k: int| 0 <= k < names.len() && names[k] == x;
                assert(arch.contains(names[k]));
            }
            if a.difference(d).contains(x) {
                assert(arch.contains(x));
                let k = choose|k: int| 0 <= k < arch.len() && arch[k] == x;
                assert(archive_pred()(arch[k]));
                names.lemma_filter_contains_rev(archive_pred(), x);
                assert(!del.contains(x));
                assert(pred(x));
                let j = choose|j: int| 0 <= j < names.len() && names[j] == x;
                assert(rest.contains(names[j]));
                assert(arch2.contains(x));
            }
        }
    }
    arch.unique_seq_to_set();
    del.unique_seq_to_set();
    arch2.unique_seq_to_set();
    vstd::set_lib::lemma_set_difference_len(a, d);
    assert(a.intersect(d) =~= d);
    assert(arch2.len() <= keep);
    lemma_rotation_within_keep(rest, keep);
}

/// Removing from a directory with distinct names some distinct archives it holds leaves as
/// many archives as it held, less those removed.
pub proof fn lemma_archives_left(names: Seq<Seq<char>>, del: Seq<Seq<char>>)
    requires
        names.no_duplicates(),
        del.no_duplicates(),
        forall|i: int| 0 <= i < del.len() ==> is_archive_name(#[trigger] del[i]) && names.contains(
            del[i],
        ),
    ensures
        archive_names(names.filter(|n: Seq<char>| !del.contains(n))).len() + del.len()
            == archive_names(names).len(),
{
    broadcast use vstd::seq_lib::group_filter_ensures;
    broadcast use vstd::set_lib::group_set_properties;

    let arch = archive_names(names);
    let pred = |n: Seq<char>| !del.contains(n);
    let rest = names.filter(pred);
    let arch2 = archive_names(rest);
    lemma_filter_no_duplicates(names, archive_pred());
    lemma_filter_no_duplicates(names, pred);
    lemma_filter_no_duplicates(rest, archive_pred());
    let a = arch.to_set();
    let d = del.to_set();
    assert(d.subset_of(a)) by {
        assert forall|x: Seq<char>| d.contains(x) implies a.contains(x) by {
            let i = choose|i: int| 0 <= i < del.len() && del[i] == x;
            assert(is_archive_name(del[i]) && names.contains(del[i]));
            names.lemma_filter_contains_rev(archive_pred(), x);
            assert(archive_pred()(x));
        }
    }
    assert(arch2.to_set() =~= a.difference(d)) by {
        assert forall|x: Seq<char>| arch2.to_set().contains(x) <==> a.difference(d).contains(x) by {
            if arch2.contains(x) {
                rest.lemma_filter_contains_rev(archive_pred(), x);
                names.lemma_filter_contains_rev(pred, x);
                assert(archive_pred()(x));
                assert(pred(x));
                let k = choose|k: int| 0 <= k < names.len() && names[k] == x;
                assert(arch.contains(names[k]));
            }
            if a.difference(d).contains(x) {
                assert(arch.contains(x));
                let k = choose|k: int| 0 <= k < arch.len() && arch[k] == x;
                assert(archive_pred()(arch[k]));
                names.lemma_filter_contains_rev(archive_pred(), x);
                assert(!del.contains(x));
                assert(pred(x));
                let j = choose|j: int| 0 <= j < names.len() && names[j] == x;
                assert(rest.contains(names[j]));
                assert(arch2.contains(x));
            }
        }
    }
    arch.unique_seq_to_set();
    del.unique_seq_to_set();
    arch2.unique_seq_to_set();
    vstd::set_lib::lemma_set_difference_len(a, d);
    assert(a.intersect(d) =~= d);
}

/// Rotation with `keep` leaves exactly `keep` archives, or all of them when there are fewer:
/// it deletes the oldest archives beyond the newest `keep`, and nothing else.
pub proof fn lemma_rotation_leaves_newest_keep(names: Seq<Seq<char>>, keep: nat)
    requires
        names.no_duplicates(),
    ensures
        ({
            let del = rotation_deletions(names, keep);
            let count = archive_names(names).len();
            &&& del.len() == if count > keep { count - keep } else { 0 }
            &&& archive_names(names.filter(|n: Seq<char>| !del.contains(n))).len() == if count
                > keep {
                keep as int
            } else {
                count as int
            }
        }),
{
    lemma_rotation_deletes_oldest(names, keep);
    lemma_deletions_distinct(names, keep);
    lemma_archives_left(names, rotation_deletions(names, keep));
}

} // verus!
