//! The categorised difference between a reference pack and a scanned directory.
use vstd::prelude::*;
use crate::caseless::{caseless, caseless_of, opt_view};
use crate::score::result_score;
use crate::resource::{
    get_i64, get_str, hash_prop_name, hash_property_name, int_prop, key_of, opt_str_view,
    str_prop, KeyView, Resource, ResourceKey,
};

verus! {

/// A difference between the scanned directory and a resource pack.
pub enum Difference {
    /// A key found only in the scanned directory.
    OnlyExistsInDataDir(Option<Vec<char>>, Vec<char>),
    /// A key found only in the pack.
    OnlyExistsInPack(Option<Vec<char>>, Vec<char>),
    /// A key on both sides whose file sizes differ: scanned size, pack size.
    FileSizeMismatch(Vec<char>, Option<i64>, Option<i64>),
    /// A key on both sides whose digests differ: algorithm, scanned digest, pack digest.
    HashMismatch(Vec<char>, String, Option<String>, Option<String>),
}

/// The mathematical form of a [`Difference`].
pub enum DifferenceView {
    OnlyExistsInDataDir(Option<Seq<char>>, Seq<char>),
    OnlyExistsInPack(Option<Seq<char>>, Seq<char>),
    FileSizeMismatch(Seq<char>, Option<i64>, Option<i64>),
    HashMismatch(Seq<char>, Seq<char>, Option<Seq<char>>, Option<Seq<char>>),
}

impl View for Difference {
    type V = DifferenceView;

    open spec fn view(&self) -> DifferenceView {
        match self {
            Difference::OnlyExistsInDataDir(a, p) => DifferenceView::OnlyExistsInDataDir(
                opt_view(*a),
                p@,
            ),
            Difference::OnlyExistsInPack(a, p) => DifferenceView::OnlyExistsInPack(opt_view(*a), p@),
            Difference::FileSizeMismatch(p, x, y) => DifferenceView::FileSizeMismatch(p@, *x, *y),
            Difference::HashMismatch(p, h, x, y) => DifferenceView::HashMismatch(
                p@,
                h@,
                opt_str_view(*x),
                opt_str_view(*y),
            ),
        }
    }
}

/// The result of matching a resource pack against a scanned directory.
pub struct MatchResourcesResult {
    /// The number of distinct keys over both sides.
    pub number_of_resources: usize,
    pub differences: Vec<Difference>,
}

/// The views of a list of differences.
pub open spec fn diff_views(ds: Seq<Difference>) -> Seq<DifferenceView> {
    ds.map_values(|d: Difference| d@)
}

/// The comparison keys of a list of resources.
pub open spec fn keys(rs: Seq<Resource>) -> Seq<KeyView> {
    rs.map_values(|r: Resource| key_of(r))
}

/// The views of a list of computed keys.
pub open spec fn key_views(ks: Seq<ResourceKey>) -> Seq<KeyView> {
    ks.map_values(|k: ResourceKey| k.view())
}

/// The last index below `n` at which `ks` holds `k`, or -1.
pub open spec fn index_below(ks: Seq<KeyView>, k: KeyView, n: int) -> int
    decreases n,
{
    if n <= 0 || n > ks.len() {
        -1
    } else if ks[n - 1] == k {
        n - 1
    } else {
        index_below(ks, k, n - 1)
    }
}

/// The index at which `ks` holds `k`, or -1.
pub open spec fn index_of(ks: Seq<KeyView>, k: KeyView) -> int {
    index_below(ks, k, ks.len() as int)
}

/// The difference that reports `k` as present on one side only.
pub open spec fn only_diff(k: KeyView, in_data_dir: bool) -> DifferenceView {
    if in_data_dir {
        DifferenceView::OnlyExistsInDataDir(k.0, k.1)
    } else {
        DifferenceView::OnlyExistsInPack(k.0, k.1)
    }
}

/// One difference for each of the first `n` keys of `a` that `b` lacks, in order.
pub open spec fn only_diffs_below(
    a: Seq<KeyView>,
    b: Seq<KeyView>,
    in_data_dir: bool,
    n: int,
) -> Seq<DifferenceView>
    decreases n,
{
    if n <= 0 || n > a.len() {
        Seq::empty()
    } else if index_of(b, a[n - 1]) >= 0 {
        only_diffs_below(a, b, in_data_dir, n - 1)
    } else {
        only_diffs_below(a, b, in_data_dir, n - 1).push(only_diff(a[n - 1], in_data_dir))
    }
}

/// One difference for each key of `a` that `b` lacks, in order.
pub open spec fn only_diffs(a: Seq<KeyView>, b: Seq<KeyView>, in_data_dir: bool) -> Seq<
    DifferenceView,
> {
    only_diffs_below(a, b, in_data_dir, a.len() as int)
}

/// The digest differences of `r` against `p` over the first `n` algorithms.
pub open spec fn hash_diffs_below(r: Resource, p: Resource, hashes: Seq<String>, n: int) -> Seq<
    DifferenceView,
>
    decreases n,
{
    if n <= 0 || n > hashes.len() {
        Seq::empty()
    } else {
        let rest = hash_diffs_below(r, p, hashes, n - 1);
        let name = hash_prop_name(hashes[n - 1]@);
        let x = str_prop(r.properties@, name);
        let y = str_prop(p.properties@, name);
        if x != y {
            rest.push(DifferenceView::HashMismatch(caseless_of(r.path@), hashes[n - 1]@, x, y))
        } else {
            rest
        }
    }
}

/// The differences of a scanned resource `r` against the pack's resource `p`
/// with the same key: a size mismatch alone, or one digest mismatch per
/// differing algorithm.
pub open spec fn resource_diffs(r: Resource, p: Resource, with_file_size: bool, hashes: Seq<String>) -> Seq<
    DifferenceView,
> {
    let x = int_prop(r.properties@, "file_size"@);
    let y = int_prop(p.properties@, "file_size"@);
    if with_file_size && x != y {
        seq![DifferenceView::FileSizeMismatch(caseless_of(r.path@), x, y)]
    } else {
        hash_diffs_below(r, p, hashes, hashes.len() as int)
    }
}

/// The differences of the first `n` scanned resources whose key the pack shares.
pub open spec fn common_diffs_below(
    live: Seq<Resource>,
    pack: Seq<Resource>,
    with_file_size: bool,
    hashes: Seq<String>,
    n: int,
) -> Seq<DifferenceView>
    decreases n,
{
    if n <= 0 || n > live.len() {
        Seq::empty()
    } else {
        let rest = common_diffs_below(live, pack, with_file_size, hashes, n - 1);
        let j = index_of(keys(pack), key_of(live[n - 1]));
        if j >= 0 {
            rest + resource_diffs(live[n - 1], pack[j], with_file_size, hashes)
        } else {
            rest
        }
    }
}

/// The differences of all scanned resources whose key the pack shares.
pub open spec fn common_diffs(
    live: Seq<Resource>,
    pack: Seq<Resource>,
    with_file_size: bool,
    hashes: Seq<String>,
) -> Seq<DifferenceView> {
    common_diffs_below(live, pack, with_file_size, hashes, live.len() as int)
}

/// All differences: keys only in the directory, keys only in the pack, then
/// the file comparisons of shared keys.
pub open spec fn all_diffs(
    live: Seq<Resource>,
    pack: Seq<Resource>,
    with_file_size: bool,
    hashes: Seq<String>,
) -> Seq<DifferenceView> {
    only_diffs(keys(live), keys(pack), true) + only_diffs(keys(pack), keys(live), false)
        + common_diffs(live, pack, with_file_size, hashes)
}

/// The number of distinct keys over both sides, where each side's keys are distinct.
pub open spec fn key_count(live: Seq<Resource>, pack: Seq<Resource>) -> int {
    (live.len() + only_diffs(keys(pack), keys(live), false).len()) as int
}

/// The index of `k` in `ks`.
pub fn find_key(ks: &Vec<ResourceKey>, k: &ResourceKey) -> (r: Option<usize>)
    ensures
        match r {
            Some(j) => j < ks@.len() && index_of(key_views(ks@), k.view()) == j,
            None => index_of(key_views(ks@), k.view()) == -1,
        },
{
    let ghost kv = key_views(ks@);
    let mut j: usize = ks.len();
    while j > 0
        invariant
            j <= ks@.len(),
            kv == key_views(ks@),
            index_of(kv, k.view()) == index_below(kv, k.view(), j as int),
        decreases j,
    {
        if ks[j - 1].same(k) {
            return Some(j - 1);
        }
        j = j - 1;
    }
    None
}

/// Whether no two keys of `ks` are equal.
pub fn all_distinct(ks: &Vec<ResourceKey>) -> (r: bool)
    ensures
        r == key_views(ks@).no_duplicates(),
{
    let ghost kv = key_views(ks@);
    let mut i: usize = 0;
    while i < ks.len()
        invariant
            i <= ks@.len(),
            kv == key_views(ks@),
            forall|a: int, b: int| 0 <= a < b < i ==> kv[a] != kv[b],
        decreases ks@.len() - i,
    {
        let mut j: usize = 0;
        while j < i
            invariant
                i < ks@.len(),
                j <= i,
                kv == key_views(ks@),
                forall|a: int, b: int| 0 <= a < b < i ==> kv[a] != kv[b],
                forall|a: int| 0 <= a < j ==> kv[a] != kv[i as int],
            decreases i - j,
        {
            if ks[j].same(&ks[i]) {
                assert(kv[j as int] == kv[i as int]);
                return false;
            }
            j = j + 1;
        }
        i = i + 1;
    }
    assert(forall|a: int, b: int| 0 <= a < ks@.len() && 0 <= b < ks@.len() && a != b ==> kv[a] != kv[b]) by {
        assert forall|a: int, b: int| 0 <= a < ks@.len() && 0 <= b < ks@.len() && a != b implies kv[a] != kv[b] by {
            if a > b {
                assert(kv[b] != kv[a]);
            }
        }
    }
    true
}

/// Appends a difference for each key of `a` that `b` lacks.
pub fn push_only_diffs(
    out: &mut Vec<Difference>,
    a: &Vec<ResourceKey>,
    b: &Vec<ResourceKey>,
    in_data_dir: bool,
)
    ensures
        diff_views(final(out)@) == diff_views(old(out)@) + only_diffs(
            key_views(a@),
            key_views(b@),
            in_data_dir,
        ),
{
    let ghost av = key_views(a@);
    let ghost bv = key_views(b@);
    let ghost start = diff_views(out@);
    let mut i: usize = 0;
    while i < a.len()
        invariant
            i <= a@.len(),
            av == key_views(a@),
            bv == key_views(b@),
            diff_views(out@) == start + only_diffs_below(av, bv, in_data_dir, i as int),
        decreases a@.len() - i,
    {
        let ghost before = diff_views(out@);
        if find_key(b, &a[i]).is_none() {
            let k = ResourceKey { archive_path: a[i].archive_path.clone(), path: a[i].path.clone() };
            let d = if in_data_dir {
                Difference::OnlyExistsInDataDir(k.archive_path, k.path)
            } else {
                Difference::OnlyExistsInPack(k.archive_path, k.path)
            };
            out.push(d);
            assert(diff_views(out@) =~= before.push(d@));
        }
        i = i + 1;
        assert(start + only_diffs_below(av, bv, in_data_dir, i as int) =~= diff_views(out@));
    }
}

/// Whether two optional integers are equal.
fn opt_i64_eq(a: Option<i64>, b: Option<i64>) -> (r: bool)
    ensures
        r == (a == b),
{
    match (a, b) {
        (Some(x), Some(y)) => x == y,
        (None, None) => true,
        _ => false,
    }
}

/// Whether two optional strings are equal.
fn opt_str_eq(a: &Option<String>, b: &Option<String>) -> (r: bool)
    ensures
        r == (opt_str_view(*a) == opt_str_view(*b)),
{
    match (a, b) {
        (Some(x), Some(y)) => *x == *y,
        (None, None) => true,
        _ => false,
    }
}

/// Appends the differences of a scanned resource `r` against the pack's
/// resource `p` with the same key.
pub fn push_resource_diffs(
    out: &mut Vec<Difference>,
    r: &Resource,
    p: &Resource,
    with_file_size: bool,
    hashes: &Vec<String>,
)
    ensures
        diff_views(final(out)@) == diff_views(old(out)@) + resource_diffs(
            *r,
            *p,
            with_file_size,
            hashes@,
        ),
{
    let ghost start = diff_views(out@);
    let size_name = "file_size".to_owned();
    let x = get_i64(&r.properties, &size_name);
    let y = get_i64(&p.properties, &size_name);
    if with_file_size && !opt_i64_eq(x, y) {
        let d = Difference::FileSizeMismatch(caseless(r.path.as_str()), x, y);
        out.push(d);
        assert(diff_views(out@) =~= start + seq![d@]);
        return;
    }
    let mut i: usize = 0;
    while i < hashes.len()
        invariant
            i <= hashes@.len(),
            diff_views(out@) == start + hash_diffs_below(*r, *p, hashes@, i as int),
            resource_diffs(*r, *p, with_file_size, hashes@) == hash_diffs_below(
                *r,
                *p,
                hashes@,
                hashes@.len() as int,
            ),
        decreases hashes@.len() - i,
    {
        let ghost before = diff_views(out@);
        let name = hash_property_name(&hashes[i]);
        let a = get_str(&r.properties, &name);
        let b = get_str(&p.properties, &name);
        if !opt_str_eq(&a, &b) {
            let d = Difference::HashMismatch(caseless(r.path.as_str()), hashes[i].clone(), a, b);
            out.push(d);
            assert(diff_views(out@) =~= before.push(d@));
        }
        i = i + 1;
        assert(start + hash_diffs_below(*r, *p, hashes@, i as int) =~= diff_views(out@));
    }
}

/// At most one difference per key of `a`.
pub(crate) proof fn lemma_only_diffs_len(a: Seq<KeyView>, b: Seq<KeyView>, in_data_dir: bool, n: int)
    requires
        0 <= n <= a.len(),
    ensures
        only_diffs_below(a, b, in_data_dir, n).len() <= n,
    decreases n,
{
    if n > 0 {
        lemma_only_diffs_len(a, b, in_data_dir, n - 1);
    }
}

/// `index_below` finds `k` below `n` exactly when some key below `n` is `k`,
/// and then at an index that holds `k`.
proof fn lemma_index_below(ks: Seq<KeyView>, k: KeyView, n: int)
    requires
        0 <= n <= ks.len(),
    ensures
        index_below(ks, k, n) < n,
        index_below(ks, k, n) >= 0 ==> ks[index_below(ks, k, n)] == k,
        index_below(ks, k, n) < 0 <==> forall|i: int| 0 <= i < n ==> ks[i] != k,
        index_below(ks, k, n) >= -1,
    decreases n,
{
    if n > 0 {
        lemma_index_below(ks, k, n - 1);
    }
}

/// Without duplicate keys, the index of the key at `i` is `i`.
proof fn lemma_index_of_distinct(ks: Seq<KeyView>, i: int)
    requires
        ks.no_duplicates(),
        0 <= i < ks.len(),
    ensures
        index_of(ks, ks[i]) == i,
{
    lemma_index_below(ks, ks[i], ks.len() as int);
}

/// The digest comparison of a resource with itself finds nothing.
proof fn lemma_hash_diffs_self(r: Resource, hashes: Seq<String>, n: int)
    requires
        0 <= n <= hashes.len(),
    ensures
        hash_diffs_below(r, r, hashes, n) == Seq::<DifferenceView>::empty(),
    decreases n,
{
    if n > 0 {
        lemma_hash_diffs_self(r, hashes, n - 1);
    }
}

/// The file comparison of a resource with itself finds nothing.
pub proof fn lemma_resource_diffs_self(r: Resource, with_file_size: bool, hashes: Seq<String>)
    ensures
        resource_diffs(r, r, with_file_size, hashes) == Seq::<DifferenceView>::empty(),
{
    lemma_hash_diffs_self(r, hashes, hashes.len() as int);
}

/// Where every key of `a` is in `b`, no key of `a` is reported as one-sided.
proof fn lemma_only_diffs_covered(a: Seq<KeyView>, b: Seq<KeyView>, in_data_dir: bool, n: int)
    requires
        0 <= n <= a.len(),
        forall|i: int| 0 <= i < a.len() ==> b.contains(#[trigger] a[i]),
    ensures
        only_diffs_below(a, b, in_data_dir, n) == Seq::<DifferenceView>::empty(),
    decreases n,
{
    if n > 0 {
        lemma_only_diffs_covered(a, b, in_data_dir, n - 1);
        let k = a[n - 1];
        assert(b.contains(k));
        let j = choose|j: int| 0 <= j < b.len() && b[j] == k;
        lemma_index_below(b, k, b.len() as int);
    }
}

/// A collection of distinct keys compared with itself has no differences:
/// every key is shared and every shared resource equals itself, so any match
/// result of it has a score of zero.
pub proof fn lemma_self_match_is_perfect(
    rs: Seq<Resource>,
    with_file_size: bool,
    hashes: Seq<String>,
    m: MatchResourcesResult,
)
    requires
        keys(rs).no_duplicates(),
        diff_views(m.differences@) == all_diffs(rs, rs, with_file_size, hashes),
    ensures
        all_diffs(rs, rs, with_file_size, hashes) == Seq::<DifferenceView>::empty(),
        m.differences@.len() == 0,
        result_score(m).0 == 0,
        key_count(rs, rs) == rs.len(),
{
    let ks = keys(rs);
    assert forall|i: int| 0 <= i < ks.len() implies ks.contains(#[trigger] ks[i]) by {}
    lemma_only_diffs_covered(ks, ks, true, ks.len() as int);
    lemma_only_diffs_covered(ks, ks, false, ks.len() as int);
    lemma_common_diffs_self(rs, with_file_size, hashes, rs.len() as int);
    assert(all_diffs(rs, rs, with_file_size, hashes) =~= Seq::<DifferenceView>::empty());
    assert(diff_views(m.differences@).len() == m.differences@.len());
}

/// Each shared key of a collection compared with itself contributes nothing.
proof fn lemma_common_diffs_self(rs: Seq<Resource>, with_file_size: bool, hashes: Seq<String>, n: int)
    requires
        keys(rs).no_duplicates(),
        0 <= n <= rs.len(),
    ensures
        common_diffs_below(rs, rs, with_file_size, hashes, n) == Seq::<DifferenceView>::empty(),
    decreases n,
{
    if n > 0 {
        lemma_common_diffs_self(rs, with_file_size, hashes, n - 1);
        lemma_index_of_distinct(keys(rs), n - 1);
        lemma_resource_diffs_self(rs[n - 1], with_file_size, hashes);
        assert(Seq::<DifferenceView>::empty() + Seq::<DifferenceView>::empty() =~= Seq::<
            DifferenceView,
        >::empty());
    }
}

/// Each key of a duplicate-free `a` is reported at most once as one-sided, on
/// its own side only.
proof fn lemma_only_diffs_count(a: Seq<KeyView>, b: Seq<KeyView>, in_data_dir: bool, n: int, k: KeyView)
    requires
        a.no_duplicates(),
        0 <= n <= a.len(),
    ensures
        only_diffs_below(a, b, in_data_dir, n).to_multiset().count(only_diff(k, in_data_dir)) == if index_below(a, k, n) >= 0 && index_of(b, k) < 0 {
            1nat
        } else {
            0nat
        },
        only_diffs_below(a, b, in_data_dir, n).to_multiset().count(only_diff(k, !in_data_dir)) == 0,
    decreases n,
{
    broadcast use vstd::seq_lib::group_to_multiset_ensures, vstd::multiset::group_multiset_axioms;

    if n == 0 {
        assert(only_diffs_below(a, b, in_data_dir, n) =~= Seq::<DifferenceView>::empty());
    } else {
        lemma_only_diffs_count(a, b, in_data_dir, n - 1, k);
        lemma_index_below(a, k, n);
        lemma_index_below(a, k, n - 1);
        if a[n - 1] == k {
            assert forall|i: int| 0 <= i < n - 1 implies a[i] != k by {}
        }
    }
}

/// The digest comparison reports only digest mismatches.
proof fn lemma_hash_diffs_two_sided(r: Resource, p: Resource, hashes: Seq<String>, n: int, d: DifferenceView)
    requires
        0 <= n <= hashes.len(),
        !(d is HashMismatch),
    ensures
        hash_diffs_below(r, p, hashes, n).to_multiset().count(d) == 0,
    decreases n,
{
    broadcast use vstd::seq_lib::group_to_multiset_ensures, vstd::multiset::group_multiset_axioms;

    if n == 0 {
        assert(hash_diffs_below(r, p, hashes, n) =~= Seq::<DifferenceView>::empty());
    } else {
        lemma_hash_diffs_two_sided(r, p, hashes, n - 1, d);
    }
}

/// The file comparisons report no key as one-sided.
proof fn lemma_common_diffs_two_sided(
    live: Seq<Resource>,
    pack: Seq<Resource>,
    with_file_size: bool,
    hashes: Seq<String>,
    n: int,
    d: DifferenceView,
)
    requires
        0 <= n <= live.len(),
        d is OnlyExistsInDataDir || d is OnlyExistsInPack,
    ensures
        common_diffs_below(live, pack, with_file_size, hashes, n).to_multiset().count(d) == 0,
    decreases n,
{
    broadcast use vstd::seq_lib::group_to_multiset_ensures, vstd::multiset::group_multiset_axioms;

    if n == 0 {
        assert(common_diffs_below(live, pack, with_file_size, hashes, n) =~= Seq::<DifferenceView>::empty());
    } else {
        lemma_common_diffs_two_sided(live, pack, with_file_size, hashes, n - 1, d);
        let rest = common_diffs_below(live, pack, with_file_size, hashes, n - 1);
        let j = index_of(keys(pack), key_of(live[n - 1]));
        if j >= 0 {
            let rd = resource_diffs(live[n - 1], pack[j], with_file_size, hashes);
            lemma_hash_diffs_two_sided(live[n - 1], pack[j], hashes, hashes.len() as int, d);
            let x = int_prop(live[n - 1].properties@, "file_size"@);
            let y = int_prop(pack[j].properties@, "file_size"@);
            if with_file_size && x != y {
                assert(rd =~= Seq::<DifferenceView>::empty().push(
                    DifferenceView::FileSizeMismatch(caseless_of(live[n - 1].path@), x, y),
                ));
            }
            vstd::seq_lib::lemma_multiset_commutative(rest, rd);
        }
    }
}

/// A key present on one side only is reported exactly once, as present on
/// that side, and never as present on the other.
pub proof fn lemma_one_sided_key_reported_once(
    live: Seq<Resource>,
    pack: Seq<Resource>,
    with_file_size: bool,
    hashes: Seq<String>,
    k: KeyView,
)
    requires
        keys(live).no_duplicates(),
        keys(pack).no_duplicates(),
        keys(live).contains(k) != keys(pack).contains(k),
    ensures
        all_diffs(live, pack, with_file_size, hashes).to_multiset().count(
            only_diff(k, keys(live).contains(k)),
        ) == 1,
        all_diffs(live, pack, with_file_size, hashes).to_multiset().count(
            only_diff(k, !keys(live).contains(k)),
        ) == 0,
{
    let kl = keys(live);
    let kp = keys(pack);
    let a = only_diffs(kl, kp, true);
    let b = only_diffs(kp, kl, false);
    let c = common_diffs(live, pack, with_file_size, hashes);
    lemma_only_diffs_count(kl, kp, true, kl.len() as int, k);
    lemma_only_diffs_count(kp, kl, false, kp.len() as int, k);
    lemma_index_below(kl, k, kl.len() as int);
    lemma_index_below(kp, k, kp.len() as int);
    lemma_common_diffs_two_sided(live, pack, with_file_size, hashes, live.len() as int, only_diff(k, true));
    lemma_common_diffs_two_sided(live, pack, with_file_size, hashes, live.len() as int, only_diff(k, false));
    vstd::seq_lib::lemma_multiset_commutative(a, b);
    vstd::seq_lib::lemma_multiset_commutative(a + b, c);
    if kl.contains(k) {
        let i = choose|i: int| 0 <= i < kl.len() && kl[i] == k;
    } else {
        let i = choose|i: int| 0 <= i < kp.len() && kp[i] == k;
    }
}

/// A shared key whose sizes are compared and differ is reported by one size
/// mismatch and nothing else, whatever its digests.
pub proof fn lemma_size_mismatch_alone(r: Resource, p: Resource, hashes: Seq<String>)
    requires
        int_prop(r.properties@, "file_size"@) != int_prop(p.properties@, "file_size"@),
    ensures
        resource_diffs(r, p, true, hashes) == seq![
            DifferenceView::FileSizeMismatch(
                caseless_of(r.path@),
                int_prop(r.properties@, "file_size"@),
                int_prop(p.properties@, "file_size"@),
            ),
        ],
{
}

/// How many of the first `n` algorithms give `r` and `p` different digests.
pub open spec fn mismatching_algorithms(r: Resource, p: Resource, hashes: Seq<String>, n: int) -> nat
    decreases n,
{
    if n <= 0 || n > hashes.len() {
        0
    } else {
        mismatching_algorithms(r, p, hashes, n - 1) + if str_prop(
            r.properties@,
            hash_prop_name(hashes[n - 1]@),
        ) != str_prop(p.properties@, hash_prop_name(hashes[n - 1]@)) {
            1nat
        } else {
            0nat
        }
    }
}

proof fn lemma_hash_diffs_count(r: Resource, p: Resource, hashes: Seq<String>, n: int)
    requires
        0 <= n <= hashes.len(),
    ensures
        hash_diffs_below(r, p, hashes, n).len() == mismatching_algorithms(r, p, hashes, n),
        forall|i: int|
            0 <= i < hash_diffs_below(r, p, hashes, n).len() ==> #[trigger] hash_diffs_below(
                r,
                p,
                hashes,
                n,
            )[i] is HashMismatch,
    decreases n,
{
    if n > 0 {
        lemma_hash_diffs_count(r, p, hashes, n - 1);
    }
}

/// A shared key whose sizes match, or are not compared, is reported by one
/// digest mismatch for each algorithm whose digests differ, and nothing else.
pub proof fn lemma_digest_mismatches_counted(
    r: Resource,
    p: Resource,
    with_file_size: bool,
    hashes: Seq<String>,
)
    requires
        !with_file_size || int_prop(r.properties@, "file_size"@) == int_prop(
            p.properties@,
            "file_size"@,
        ),
    ensures
        resource_diffs(r, p, with_file_size, hashes).len() == mismatching_algorithms(
            r,
            p,
            hashes,
            hashes.len() as int,
        ),
        forall|i: int|
            0 <= i < resource_diffs(r, p, with_file_size, hashes).len() ==> #[trigger] resource_diffs(
                r,
                p,
                with_file_size,
                hashes,
            )[i] is HashMismatch,
{
    lemma_hash_diffs_count(r, p, hashes, hashes.len() as int);
}

/// The keys of `a`'s first `n` that `b` lacks are as many as the one-sided
/// differences reported for them.
proof fn lemma_only_diffs_card(a: Seq<KeyView>, b: Seq<KeyView>, in_data_dir: bool, n: int)
    requires
        a.no_duplicates(),
        0 <= n <= a.len(),
    ensures
        a.subrange(0, n).to_set().difference(b.to_set()).finite(),
        only_diffs_below(a, b, in_data_dir, n).len() == a.subrange(0, n).to_set().difference(
            b.to_set(),
        ).len(),
    decreases n,
{
    broadcast use vstd::set::group_set_axioms, vstd::seq_lib::group_seq_properties;

    let d = a.subrange(0, n).to_set().difference(b.to_set());
    vstd::seq_lib::seq_to_set_is_finite(a.subrange(0, n));
    vstd::set_lib::lemma_len_difference(a.subrange(0, n).to_set(), b.to_set());
    if n == 0 {
        assert(d =~= Set::<KeyView>::empty());
    } else {
        lemma_only_diffs_card(a, b, in_data_dir, n - 1);
        let prev = a.subrange(0, n - 1).to_set().difference(b.to_set());
        let k = a[n - 1];
        lemma_index_below(b, k, b.len() as int);
        assert(a.subrange(0, n).to_set() =~= a.subrange(0, n - 1).to_set().insert(k)) by {
            assert forall|x: KeyView| a.subrange(0, n).to_set().contains(x) implies a.subrange(
                0,
                n - 1,
            ).to_set().insert(k).contains(x) by {
                let i = choose|i: int| 0 <= i < n && #[trigger] a.subrange(0, n)[i] == x;
                if i < n - 1 {
                    assert(a.subrange(0, n - 1)[i] == x);
                }
            }
            assert forall|x: KeyView| a.subrange(0, n - 1).to_set().insert(k).contains(x) implies a.subrange(
                0,
                n,
            ).to_set().contains(x) by {
                if x == k {
                    assert(a.subrange(0, n)[n - 1] == x);
                } else {
                    let i = choose|i: int| 0 <= i < n - 1 && #[trigger] a.subrange(0, n - 1)[i] == x;
                    assert(a.subrange(0, n)[i] == x);
                }
            }
        }
        assert(!a.subrange(0, n - 1).to_set().contains(k)) by {
            if a.subrange(0, n - 1).to_set().contains(k) {
                let i = choose|i: int| 0 <= i < n - 1 && #[trigger] a.subrange(0, n - 1)[i] == k;
                assert(a[i] == a[n - 1]);
            }
        }
        if b.to_set().contains(k) {
            let i = choose|i: int| 0 <= i < b.len() && b[i] == k;
            assert(d =~= prev);
        } else {
            assert(d =~= prev.insert(k));
        }
    }
}

/// With distinct keys on each side, the key count is the number of keys in
/// the union of both sides' key sets.
pub proof fn lemma_key_count_is_union(live: Seq<Resource>, pack: Seq<Resource>)
    requires
        keys(live).no_duplicates(),
        keys(pack).no_duplicates(),
    ensures
        key_count(live, pack) == keys(live).to_set().union(keys(pack).to_set()).len(),
{
    broadcast use vstd::set::group_set_axioms;

    let l = keys(live);
    let p = keys(pack);
    lemma_only_diffs_card(p, l, false, p.len() as int);
    assert(p.subrange(0, p.len() as int) =~= p);
    let d = p.to_set().difference(l.to_set());
    l.unique_seq_to_set();
    vstd::seq_lib::seq_to_set_is_finite(l);
    assert(l.to_set().union(p.to_set()) =~= l.to_set().union(d));
    assert(l.to_set().disjoint(d));
    vstd::set_lib::lemma_set_disjoint_lens(l.to_set(), d);
}

} // verus!
