//! Delivery packaging: files are grouped into one package per shooting half-day,
//! and a delivery list is produced for manual upload.
use vstd::prelude::*;
use crate::datetime::{DateTime, compact_date, format_compact_date};
use crate::text::{
    text_less, str_eq, str_less, lemma_text_less_irreflexive, lemma_text_less_total,
    lemma_text_less_transitive, decimal, decimal_string, string_views, chars_of, string_of,
    push_char, push_chars, slice_range, last_index, rfind_char, owned,
};
use crate::paths::{file_name_or_empty, file_name_or_default};
use crate::datetime::{now_rfc3339, parse_ymd_hms, chrono_parse_ymd_hms, rfc3339_stamp};
use crate::media_indexer::MediaItem;
use crate::sums::{sum_of, lemma_sum_of_push, lemma_sum_of_update, lemma_sum_of_insert, lemma_sum_of_prefix, lemma_sum_of_element};

verus! {

broadcast use vstd::string::group_string_axioms;

/// Morning or afternoon.
#[derive(Debug, Clone, Copy, PartialEq, Eq, PartialOrd, Ord, Structural)]
pub enum HalfDay {
    Am,
    Pm,
}

impl HalfDay {
    /// Before noon is morning.
    pub open spec fn of(dt: DateTime) -> HalfDay {
        if dt.hour < 12 {
            HalfDay::Am
        } else {
            HalfDay::Pm
        }
    }

    pub open spec fn label_text(self) -> Seq<char> {
        match self {
            HalfDay::Am => "上午"@,
            HalfDay::Pm => "下午"@,
        }
    }

    /// The half-day a date-time falls in.
    pub fn from_dt(dt: &DateTime) -> (r: HalfDay)
        ensures
            r == HalfDay::of(*dt),
    {
        if dt.hour < 12 {
            HalfDay::Am
        } else {
            HalfDay::Pm
        }
    }

    /// `上午` or `下午`.
    pub fn label(&self) -> (r: &'static str)
        ensures
            r@ == self.label_text(),
    {
        match self {
            HalfDay::Am => "上午",
            HalfDay::Pm => "下午",
        }
    }
}

/// A file to package.
#[derive(Debug, Clone, PartialEq)]
pub struct PackageInput {
    pub path: String,
    pub name: String,
    pub size: u64,
    /// Shooting time, if known; files without one go to a catch-all bucket.
    pub datetime: Option<DateTime>,
}

/// A delivery package.
#[derive(Debug, Clone, PartialEq)]
pub struct Package {
    pub name: String,
    /// Paths of the files in the package.
    pub files: Vec<String>,
    pub count: u64,
    pub total_bytes: u64,
}

/// The delivery list.
#[derive(Debug, Clone, PartialEq)]
pub struct DeliveryManifest {
    pub project_id: String,
    pub created_at: String,
    pub operator: String,
    pub packages: Vec<Package>,
    pub total_files: u64,
    pub total_bytes: u64,
}

/// The inputs (by index) shot in one half-day.
#[derive(Debug, Clone, PartialEq)]
pub struct HalfDayBucket {
    /// `YYYYMMDD`, or `00000000` for files without a shooting time.
    pub date: String,
    pub half: HalfDay,
    pub indices: Vec<usize>,
}

/// The half-day an input belongs to: its shooting date and half, or
/// `00000000` morning when the time is unknown.
pub open spec fn input_key(i: PackageInput) -> (Seq<char>, HalfDay) {
    match i.datetime {
        Some(dt) => (compact_date(dt), HalfDay::of(dt)),
        None => ("00000000"@, HalfDay::Am),
    }
}

pub open spec fn bucket_key(b: HalfDayBucket) -> (Seq<char>, HalfDay) {
    (b.date@, b.half)
}

/// Half-days ordered by date text, morning before afternoon.
pub open spec fn key_less(a: (Seq<char>, HalfDay), b: (Seq<char>, HalfDay)) -> bool {
    text_less(a.0, b.0) || (a.0 == b.0 && a.1 == HalfDay::Am && b.1 == HalfDay::Pm)
}

/// `key_less` is a strict total order.
pub proof fn lemma_key_less_order(a: (Seq<char>, HalfDay), b: (Seq<char>, HalfDay), c: (Seq<char>, HalfDay))
    ensures
        !key_less(a, a),
        a != b ==> key_less(a, b) || key_less(b, a),
        !(key_less(a, b) && key_less(b, a)),
        key_less(a, b) && key_less(b, c) ==> key_less(a, c),
{
    lemma_text_less_irreflexive(a.0);
    lemma_text_less_total(a.0, b.0);
    lemma_text_less_total(b.0, c.0);
    lemma_text_less_total(a.0, c.0);
    if text_less(a.0, b.0) && text_less(b.0, c.0) {
        lemma_text_less_transitive(a.0, b.0, c.0);
    }
    lemma_text_less_irreflexive(b.0);
}

/// `bs` is the bucketing of the first `n` inputs: buckets in increasing half-day
/// order, none empty, each holding, in increasing order, the indices of the inputs
/// of its half-day, and every input in some bucket.
pub open spec fn buckets_ok(inputs: Seq<PackageInput>, bs: Seq<HalfDayBucket>, n: int) -> bool {
    &&& forall|j: int, k: int| 0 <= j < k < bs.len() ==> key_less(bucket_key(#[trigger] bs[j]), bucket_key(#[trigger] bs[k]))
    &&& forall|j: int| 0 <= j < bs.len() ==> (#[trigger] bs[j]).indices@.len() > 0
    &&& forall|j: int, a: int| 0 <= j < bs.len() && 0 <= a < bs[j].indices@.len() ==> {
        let x = #[trigger] bs[j].indices@[a];
        &&& 0 <= x < n
        &&& input_key(inputs[x as int]) == bucket_key(bs[j])
    }
    &&& forall|j: int, a: int, c: int| 0 <= j < bs.len() && 0 <= a < c < bs[j].indices@.len() ==> #[trigger] bs[j].indices@[a] < #[trigger] bs[j].indices@[c]
    &&& forall|x: int| 0 <= x < n ==> #[trigger] covers(bs, x)
}

/// Some bucket of `bs` holds the index `x`.
pub open spec fn covers(bs: Seq<HalfDayBucket>, x: int) -> bool {
    exists|j: int, a: int| 0 <= j < bs.len() && 0 <= a < bs[j].indices@.len() && #[trigger] bs[j].indices@[a] == x
}

/// The sizes of the inputs.
pub open spec fn input_sizes(inputs: Seq<PackageInput>) -> Seq<int> {
    inputs.map_values(|p: PackageInput| p.size as int)
}

/// The sizes of the inputs at the given indices.
pub open spec fn sizes_at(inputs: Seq<PackageInput>, idx: Seq<usize>) -> Seq<int> {
    idx.map_values(|x: usize| inputs[x as int].size as int)
}

/// The number of files in each bucket.
pub open spec fn bucket_counts(bs: Seq<HalfDayBucket>) -> Seq<int> {
    bs.map_values(|b: HalfDayBucket| b.indices@.len() as int)
}

/// The bytes in each bucket.
pub open spec fn bucket_bytes(inputs: Seq<PackageInput>, bs: Seq<HalfDayBucket>) -> Seq<int> {
    bs.map_values(|b: HalfDayBucket| sum_of(sizes_at(inputs, b.indices@)))
}

/// The buckets hold `n` files and the bytes of the first `n` inputs.
pub open spec fn sums_ok(inputs: Seq<PackageInput>, bs: Seq<HalfDayBucket>, n: int) -> bool {
    &&& sum_of(bucket_counts(bs)) == n
    &&& sum_of(bucket_bytes(inputs, bs)) == sum_of(input_sizes(inputs).take(n))
}

proof fn lemma_sums_push(inputs: Seq<PackageInput>, bs: Seq<HalfDayBucket>, nbs: Seq<HalfDayBucket>, i: usize, j: int)
    requires
        0 <= i < inputs.len(),
        0 <= j < bs.len(),
        sums_ok(inputs, bs, i as int),
        nbs == bs.update(j, nbs[j]),
        nbs[j].indices@ == bs[j].indices@.push(i),
    ensures
        sums_ok(inputs, nbs, i + 1),
{
    let v = inputs[i as int].size as int;
    assert(bucket_counts(nbs) =~= bucket_counts(bs).update(j, bs[j].indices@.len() as int + 1));
    lemma_sum_of_update(bucket_counts(bs), j, bs[j].indices@.len() as int + 1);
    assert(sizes_at(inputs, nbs[j].indices@) =~= sizes_at(inputs, bs[j].indices@).push(v));
    lemma_sum_of_push(sizes_at(inputs, bs[j].indices@), v);
    assert(bucket_bytes(inputs, nbs) =~= bucket_bytes(inputs, bs).update(j, sum_of(sizes_at(inputs, bs[j].indices@)) + v));
    lemma_sum_of_update(bucket_bytes(inputs, bs), j, sum_of(sizes_at(inputs, bs[j].indices@)) + v);
    assert(input_sizes(inputs).take(i + 1) =~= input_sizes(inputs).take(i as int).push(v));
    lemma_sum_of_push(input_sizes(inputs).take(i as int), v);
}

proof fn lemma_sums_insert(inputs: Seq<PackageInput>, bs: Seq<HalfDayBucket>, b: HalfDayBucket, i: usize, j: int)
    requires
        0 <= i < inputs.len(),
        0 <= j <= bs.len(),
        sums_ok(inputs, bs, i as int),
        b.indices@ == seq![i],
    ensures
        sums_ok(inputs, bs.insert(j, b), i + 1),
{
    let v = inputs[i as int].size as int;
    assert(bucket_counts(bs.insert(j, b)) =~= bucket_counts(bs).insert(j, 1));
    lemma_sum_of_insert(bucket_counts(bs), j, 1);
    assert(sizes_at(inputs, b.indices@) =~= seq![].push(v));
    lemma_sum_of_push(seq![], v);
    assert(bucket_bytes(inputs, bs.insert(j, b)) =~= bucket_bytes(inputs, bs).insert(j, v));
    lemma_sum_of_insert(bucket_bytes(inputs, bs), j, v);
    assert(input_sizes(inputs).take(i + 1) =~= input_sizes(inputs).take(i as int).push(v));
    lemma_sum_of_push(input_sizes(inputs).take(i as int), v);
}

fn key_of(input: &PackageInput) -> (r: (String, HalfDay))
    ensures
        (r.0@, r.1) == input_key(*input),
{
    match &input.datetime {
        Some(dt) => (format_compact_date(dt), HalfDay::from_dt(dt)),
        None => ("00000000".to_owned(), HalfDay::Am),
    }
}

fn key_less_exec(a_date: &str, a_half: HalfDay, b_date: &str, b_half: HalfDay) -> (r: bool)
    ensures
        r == key_less((a_date@, a_half), (b_date@, b_half)),
{
    str_less(a_date, b_date) || (str_eq(a_date, b_date) && a_half == HalfDay::Am && b_half == HalfDay::Pm)
}

/// Groups inputs by shooting half-day (`YYYYMMDD` plus morning/afternoon), in
/// increasing order; inputs without a shooting time go to `00000000` morning.
pub fn bucket_by_half_day(inputs: &[PackageInput]) -> (r: Vec<HalfDayBucket>)
    ensures
        buckets_ok(inputs@, r@, inputs@.len() as int),
        sums_ok(inputs@, r@, inputs@.len() as int),
{
    let mut bs: Vec<HalfDayBucket> = Vec::new();
    let mut i: usize = 0;
    assert(input_sizes(inputs@).take(0) =~= seq![]);
    assert(bucket_counts(bs@) =~= seq![]);
    assert(bucket_bytes(inputs@, bs@) =~= seq![]);
    while i < inputs.len()
        invariant
            i <= inputs@.len(),
            buckets_ok(inputs@, bs@, i as int),
            sums_ok(inputs@, bs@, i as int),
        decreases inputs@.len() - i,
    {
        let (date, half) = key_of(&inputs[i]);
        let ghost key = (date@, half);
        let mut j: usize = 0;
        while j < bs.len() && key_less_exec(bs[j].date.as_str(), bs[j].half, date.as_str(), half)
            invariant
                j <= bs@.len(),
                key == (date@, half),
                forall|jj: int| 0 <= jj < j ==> key_less(bucket_key(#[trigger] bs@[jj]), key),
            decreases bs@.len() - j,
        {
            j = j + 1;
        }
        if j < bs.len() && str_eq(bs[j].date.as_str(), date.as_str()) && bs[j].half == half {
            proof {
                lemma_push_index(inputs@, bs@, i, j as int);
            }
            let ghost old_bs = bs@;
            let mut b = HalfDayBucket { date: String::new(), half: HalfDay::Am, indices: Vec::new() };
            bs.set_and_swap(j, &mut b);
            b.indices.push(i);
            bs.set(j, b);
            assert(bs@ =~= old_bs.update(j as int, bs@[j as int]));
            proof {
                lemma_sums_push(inputs@, old_bs, bs@, i, j as int);
            }
        } else {
            proof {
                if j < bs@.len() {
                    lemma_key_less_order(bucket_key(bs@[j as int]), key, key);
                }
                lemma_insert_bucket(inputs@, bs@, i, j as int, key);
            }
            let mut idx: Vec<usize> = Vec::new();
            idx.push(i);
            let nb = HalfDayBucket { date, half, indices: idx };
            proof {
                lemma_sums_insert(inputs@, bs@, nb, i, j as int);
            }
            bs.insert(j, nb);
        }
        i = i + 1;
    }
    assert(input_sizes(inputs@).take(inputs@.len() as int) =~= input_sizes(inputs@));
    bs
}

// ---------------------------------------------------------------------------
// Packages
// ---------------------------------------------------------------------------

/// `交付_{date}_{上午|下午}`.
pub open spec fn package_name(date: Seq<char>, half: HalfDay) -> Seq<char> {
    "交付_"@ + date + "_"@ + half.label_text()
}

/// `p` is the package of bucket `b`: its name, the paths of its files in bucket
/// order, their number and their total size.
pub open spec fn package_matches(inputs: Seq<PackageInput>, b: HalfDayBucket, p: Package) -> bool {
    &&& p.name@ == package_name(b.date@, b.half)
    &&& string_views(p.files@) == b.indices@.map_values(|x: usize| inputs[x as int].path@)
    &&& p.count == b.indices@.len()
    &&& p.total_bytes == sum_of(sizes_at(inputs, b.indices@))
}

/// `ps` holds one package per bucket of `bs`, in the same order.
pub open spec fn packages_of(inputs: Seq<PackageInput>, bs: Seq<HalfDayBucket>, ps: Seq<Package>) -> bool {
    &&& ps.len() == bs.len()
    &&& forall|k: int| 0 <= k < bs.len() ==> package_matches(inputs, #[trigger] bs[k], ps[k])
}

/// What a package says: its name, files, count and size.
pub open spec fn package_view(p: Package) -> (Seq<char>, Seq<Seq<char>>, u64, u64) {
    (p.name@, string_views(p.files@), p.count, p.total_bytes)
}

/// Two sequences that are strictly increasing in `lt` and hold the same elements
/// are equal.
proof fn lemma_sorted_unique<T>(s1: Seq<T>, s2: Seq<T>, lt: spec_fn(T, T) -> bool)
    requires
        forall|x: T| !(#[trigger] lt(x, x)),
        forall|x: T, y: T, z: T| #[trigger] lt(x, y) && #[trigger] lt(y, z) ==> lt(x, z),
        forall|i: int, j: int| 0 <= i < j < s1.len() ==> lt(#[trigger] s1[i], #[trigger] s1[j]),
        forall|i: int, j: int| 0 <= i < j < s2.len() ==> lt(#[trigger] s2[i], #[trigger] s2[j]),
        forall|x: T| s1.contains(x) <==> s2.contains(x),
    ensures
        s1 == s2,
    decreases s1.len(),
{
    if s1.len() == 0 {
        if s2.len() > 0 {
            assert(s2.contains(s2[0]));
        }
        assert(s1 =~= s2);
    } else {
        assert(s1.contains(s1[0]));
        assert(s2.len() > 0);
        let a = s1[0];
        let b = s2[0];
        assert(s2.contains(b));
        let ka = choose|k: int| 0 <= k < s2.len() && s2[k] == a;
        let kb = choose|k: int| 0 <= k < s1.len() && s1[k] == b;
        if a != b {
            assert(ka > 0);
            assert(kb > 0);
            assert(lt(b, a));
            assert(lt(a, b));
            assert(lt(a, a));
        }
        let t1 = s1.drop_first();
        let t2 = s2.drop_first();
        assert forall|x: T| t1.contains(x) <==> t2.contains(x) by {
            if t1.contains(x) {
                let k = choose|k: int| 0 <= k < t1.len() && t1[k] == x;
                assert(s1[k + 1] == x);
                assert(lt(a, x));
                assert(s1.contains(x));
                let k2 = choose|k2: int| 0 <= k2 < s2.len() && s2[k2] == x;
                if k2 == 0 {
                    assert(lt(x, x));
                }
                assert(t2[k2 - 1] == x);
            }
            if t2.contains(x) {
                let k = choose|k: int| 0 <= k < t2.len() && t2[k] == x;
                assert(s2[k + 1] == x);
                assert(lt(b, x));
                assert(s2.contains(x));
                let k1 = choose|k1: int| 0 <= k1 < s1.len() && s1[k1] == x;
                if k1 == 0 {
                    assert(lt(x, x));
                }
                assert(t1[k1 - 1] == x);
            }
        }
        assert forall|i: int, j: int| 0 <= i < j < t1.len() implies lt(#[trigger] t1[i], #[trigger] t1[j]) by {
            assert(t1[i] == s1[i + 1] && t1[j] == s1[j + 1]);
        }
        assert forall|i: int, j: int| 0 <= i < j < t2.len() implies lt(#[trigger] t2[i], #[trigger] t2[j]) by {
            assert(t2[i] == s2[i + 1] && t2[j] == s2[j + 1]);
        }
        lemma_sorted_unique(t1, t2, lt);
        assert(s1 =~= seq![a] + t1);
        assert(s2 =~= seq![b] + t2);
    }
}

pub open spec fn bucket_keys(bs: Seq<HalfDayBucket>) -> Seq<(Seq<char>, HalfDay)> {
    bs.map_values(|b: HalfDayBucket| bucket_key(b))
}

proof fn lemma_bucket_keys_covered(inputs: Seq<PackageInput>, bs1: Seq<HalfDayBucket>, bs2: Seq<HalfDayBucket>, n: int, k: (Seq<char>, HalfDay))
    requires
        buckets_ok(inputs, bs1, n),
        buckets_ok(inputs, bs2, n),
        bucket_keys(bs1).contains(k),
    ensures
        bucket_keys(bs2).contains(k),
{
    let j = choose|j: int| 0 <= j < bucket_keys(bs1).len() && bucket_keys(bs1)[j] == k;
    assert(bucket_key(bs1[j]) == k);
    assert(bs1[j].indices@.len() > 0);
    let x = bs1[j].indices@[0];
    assert(input_key(inputs[x as int]) == k);
    assert(covers(bs2, x as int));
    let (j2, a2) = choose|j2: int, a2: int| 0 <= j2 < bs2.len() && 0 <= a2 < bs2[j2].indices@.len() && #[trigger] bs2[j2].indices@[a2] == x as int;
    assert(bucket_key(bs2[j2]) == input_key(inputs[bs2[j2].indices@[a2] as int]));
    assert(bucket_keys(bs2)[j2] == k);
}

/// Packaging is deterministic: any two results that meet the contract of
/// [`build_packages`] for the same inputs hold the same packages, in the same order.
pub proof fn lemma_packaging_deterministic(
    inputs: Seq<PackageInput>,
    bs1: Seq<HalfDayBucket>,
    ps1: Seq<Package>,
    bs2: Seq<HalfDayBucket>,
    ps2: Seq<Package>,
)
    requires
        buckets_ok(inputs, bs1, inputs.len() as int),
        packages_of(inputs, bs1, ps1),
        buckets_ok(inputs, bs2, inputs.len() as int),
        packages_of(inputs, bs2, ps2),
    ensures
        ps1.map_values(|p: Package| package_view(p)) == ps2.map_values(|p: Package| package_view(p)),
{
    let n = inputs.len() as int;
    let k1 = bucket_keys(bs1);
    let k2 = bucket_keys(bs2);
    let klt = |a: (Seq<char>, HalfDay), b: (Seq<char>, HalfDay)| key_less(a, b);
    assert forall|x: (Seq<char>, HalfDay)| !(#[trigger] klt(x, x)) by {
        lemma_key_less_order(x, x, x);
    }
    assert forall|x: (Seq<char>, HalfDay), y: (Seq<char>, HalfDay), z: (Seq<char>, HalfDay)| #[trigger] klt(x, y) && #[trigger] klt(y, z) implies klt(x, z) by {
        lemma_key_less_order(x, y, z);
    }
    assert forall|i: int, j: int| 0 <= i < j < k1.len() implies klt(#[trigger] k1[i], #[trigger] k1[j]) by {
        assert(key_less(bucket_key(bs1[i]), bucket_key(bs1[j])));
    }
    assert forall|i: int, j: int| 0 <= i < j < k2.len() implies klt(#[trigger] k2[i], #[trigger] k2[j]) by {
        assert(key_less(bucket_key(bs2[i]), bucket_key(bs2[j])));
    }
    assert forall|k: (Seq<char>, HalfDay)| k1.contains(k) <==> k2.contains(k) by {
        if k1.contains(k) {
            lemma_bucket_keys_covered(inputs, bs1, bs2, n, k);
        }
        if k2.contains(k) {
            lemma_bucket_keys_covered(inputs, bs2, bs1, n, k);
        }
    }
    lemma_sorted_unique(k1, k2, klt);
    let ilt = |a: usize, b: usize| a < b;
    assert forall|j: int| 0 <= j < bs1.len() implies (#[trigger] bs1[j]).indices@ == bs2[j].indices@ && bucket_key(bs1[j]) == bucket_key(bs2[j]) by {
        assert(k1[j] == k2[j]);
        let i1 = bs1[j].indices@;
        let i2 = bs2[j].indices@;
        assert forall|a: int, c: int| 0 <= a < c < i1.len() implies ilt(#[trigger] i1[a], #[trigger] i1[c]) by {
            assert(bs1[j].indices@[a] < bs1[j].indices@[c]);
        }
        assert forall|a: int, c: int| 0 <= a < c < i2.len() implies ilt(#[trigger] i2[a], #[trigger] i2[c]) by {
            assert(bs2[j].indices@[a] < bs2[j].indices@[c]);
        }
        assert forall|x: usize| i1.contains(x) <==> i2.contains(x) by {
            if i1.contains(x) {
                lemma_index_in_same_bucket(inputs, bs1, bs2, n, j, x);
            }
            if i2.contains(x) {
                lemma_index_in_same_bucket(inputs, bs2, bs1, n, j, x);
            }
        }
        lemma_sorted_unique(i1, i2, ilt);
    }
    let v1 = ps1.map_values(|p: Package| package_view(p));
    let v2 = ps2.map_values(|p: Package| package_view(p));
    assert forall|j: int| 0 <= j < v1.len() implies v1[j] == v2[j] by {
        assert(package_matches(inputs, bs1[j], ps1[j]));
        assert(package_matches(inputs, bs2[j], ps2[j]));
        assert(bs1[j].indices@ == bs2[j].indices@);
    }
    assert(v1 =~= v2);
}

proof fn lemma_index_in_same_bucket(inputs: Seq<PackageInput>, bs1: Seq<HalfDayBucket>, bs2: Seq<HalfDayBucket>, n: int, j: int, x: usize)
    requires
        buckets_ok(inputs, bs1, n),
        buckets_ok(inputs, bs2, n),
        bs1.len() == bs2.len(),
        0 <= j < bs1.len(),
        bucket_key(bs1[j]) == bucket_key(bs2[j]),
        bs1[j].indices@.contains(x),
    ensures
        bs2[j].indices@.contains(x),
{
    let a = choose|a: int| 0 <= a < bs1[j].indices@.len() && bs1[j].indices@[a] == x;
    assert(bs1[j].indices@[a] == x);
    assert(input_key(inputs[x as int]) == bucket_key(bs1[j]));
    assert(covers(bs2, x as int));
    let (j2, a2) = choose|j2: int, a2: int| 0 <= j2 < bs2.len() && 0 <= a2 < bs2[j2].indices@.len() && #[trigger] bs2[j2].indices@[a2] == x as int;
    assert(bucket_key(bs2[j2]) == input_key(inputs[bs2[j2].indices@[a2] as int]));
    if j2 < j {
        assert(key_less(bucket_key(bs2[j2]), bucket_key(bs2[j])));
        lemma_key_less_order(bucket_key(bs2[j]), bucket_key(bs2[j]), bucket_key(bs2[j]));
    } else if j2 > j {
        assert(key_less(bucket_key(bs2[j]), bucket_key(bs2[j2])));
        lemma_key_less_order(bucket_key(bs2[j]), bucket_key(bs2[j]), bucket_key(bs2[j]));
    }
    assert(bs2[j].indices@[a2] == x);
}

/// The file counts of the packages.
pub open spec fn package_counts(ps: Seq<Package>) -> Seq<int> {
    ps.map_values(|p: Package| p.count as int)
}

/// The byte totals of the packages.
pub open spec fn package_bytes(ps: Seq<Package>) -> Seq<int> {
    ps.map_values(|p: Package| p.total_bytes as int)
}

fn package_of(inputs: &[PackageInput], b: &HalfDayBucket) -> (p: Package)
    requires
        forall|a: int| 0 <= a < b.indices@.len() ==> b.indices@[a] < inputs@.len(),
        sum_of(sizes_at(inputs@, b.indices@)) <= u64::MAX,
    ensures
        package_matches(inputs@, *b, p),
{
    let ghost sizes = sizes_at(inputs@, b.indices@);
    let ghost paths = b.indices@.map_values(|x: usize| inputs@[x as int].path@);
    let mut files: Vec<String> = Vec::new();
    let mut total: u64 = 0;
    let mut a: usize = 0;
    while a < b.indices.len()
        invariant
            a <= b.indices@.len(),
            sizes == sizes_at(inputs@, b.indices@),
            paths == b.indices@.map_values(|x: usize| inputs@[x as int].path@),
            forall|t: int| 0 <= t < b.indices@.len() ==> b.indices@[t] < inputs@.len(),
            sum_of(sizes) <= u64::MAX,
            string_views(files@) == paths.take(a as int),
            total == sum_of(sizes.take(a as int)),
        decreases b.indices@.len() - a,
    {
        let x = b.indices[a];
        let ghost before = files@;
        let f = inputs[x].path.clone();
        files.push(f);
        proof {
            assert(files@ == before.push(f));
            assert(string_views(files@) =~= string_views(before).push(f@));
            assert(paths.take(a + 1) =~= paths.take(a as int).push(paths[a as int]));
            assert(string_views(files@) =~= paths.take(a + 1));
            assert(sizes.take(a + 1).drop_last() =~= sizes.take(a as int));
            assert forall|t: int| 0 <= t < sizes.len() implies sizes[t] >= 0 by {}
            lemma_sum_of_prefix(sizes, a + 1);
        }
        total = total + inputs[x].size;
        a = a + 1;
    }
    assert(sizes.take(sizes.len() as int) =~= sizes);
    assert(paths.take(paths.len() as int) =~= paths);
    let mut name = "交付_".to_owned();
    name.append(b.date.as_str());
    name.append("_");
    name.append(b.half.label());
    let p = Package { name, files, count: b.indices.len() as u64, total_bytes: total };
    assert(p.name@ =~= package_name(b.date@, b.half));
    p
}

/// One delivery package per shooting half-day (see [`bucket_by_half_day`]), in
/// half-day order, named `交付_{YYYYMMDD}_{上午|下午}`.
pub fn build_packages(inputs: &[PackageInput]) -> (r: Vec<Package>)
    requires
        sum_of(input_sizes(inputs@)) <= u64::MAX,
    ensures
        exists|bs: Seq<HalfDayBucket>| buckets_ok(inputs@, bs, inputs@.len() as int) && packages_of(inputs@, bs, r@),
        sum_of(package_counts(r@)) == inputs@.len(),
        sum_of(package_bytes(r@)) == sum_of(input_sizes(inputs@)),
{
    let bs = bucket_by_half_day(inputs);
    proof {
        assert forall|k: int| 0 <= k < bs@.len() implies bucket_bytes(inputs@, bs@)[k] >= 0 by {
            let sz = sizes_at(inputs@, bs@[k].indices@);
            assert forall|t: int| 0 <= t < sz.len() implies sz[t] >= 0 by {}
            lemma_sum_of_prefix(sz, 0);
            lemma_sum_of_prefix(sz, sz.len() as int);
            assert(sz.take(sz.len() as int) =~= sz);
        }
    }
    let mut r: Vec<Package> = Vec::new();
    let mut k: usize = 0;
    while k < bs.len()
        invariant
            k <= bs@.len(),
            buckets_ok(inputs@, bs@, inputs@.len() as int),
            sums_ok(inputs@, bs@, inputs@.len() as int),
            sum_of(input_sizes(inputs@)) <= u64::MAX,
            forall|t: int| 0 <= t < bs@.len() ==> bucket_bytes(inputs@, bs@)[t] >= 0,
            r@.len() == k,
            forall|t: int| 0 <= t < k ==> package_matches(inputs@, #[trigger] bs@[t], r@[t]),
        decreases bs@.len() - k,
    {
        proof {
            lemma_sum_of_element(bucket_bytes(inputs@, bs@), k as int);
            assert(input_sizes(inputs@).take(inputs@.len() as int) =~= input_sizes(inputs@));
            assert forall|a: int| 0 <= a < bs@[k as int].indices@.len() implies bs@[k as int].indices@[a] < inputs@.len() by {
                let x = bs@[k as int].indices@[a];
            }
        }
        let p = package_of(inputs, &bs[k]);
        r.push(p);
        k = k + 1;
    }
    proof {
        assert(packages_of(inputs@, bs@, r@));
        assert(package_counts(r@) =~= bucket_counts(bs@));
        assert(package_bytes(r@) =~= bucket_bytes(inputs@, bs@));
        assert(input_sizes(inputs@).take(inputs@.len() as int) =~= input_sizes(inputs@));
    }
    r
}

/// The total size of the inputs.
fn total_input_bytes(inputs: &[PackageInput]) -> (t: u64)
    requires
        sum_of(input_sizes(inputs@)) <= u64::MAX,
    ensures
        t == sum_of(input_sizes(inputs@)),
{
    let ghost sizes = input_sizes(inputs@);
    let mut t: u64 = 0;
    let mut i: usize = 0;
    while i < inputs.len()
        invariant
            i <= inputs@.len(),
            sizes == input_sizes(inputs@),
            sum_of(sizes) <= u64::MAX,
            t == sum_of(sizes.take(i as int)),
        decreases inputs@.len() - i,
    {
        proof {
            assert(sizes.take(i + 1).drop_last() =~= sizes.take(i as int));
            assert forall|u: int| 0 <= u < sizes.len() implies sizes[u] >= 0 by {}
            lemma_sum_of_prefix(sizes, i + 1);
        }
        t = t + inputs[i].size;
        i = i + 1;
    }
    assert(sizes.take(inputs@.len() as int) =~= sizes);
    t
}

/// The packaging inputs for a folder's scanned media files, in scan order: each
/// file's path, name and size, and its shooting time read as
/// `YYYY-MM-DD HH:MM:SS` (none where that text does not parse).
pub fn package_inputs(items: &[MediaItem]) -> (r: Vec<PackageInput>)
    ensures
        r.len() == items.len(),
        forall|i: int|
            0 <= i < items.len() ==> {
                &&& (#[trigger] r[i]).path@ == items[i].path@
                &&& r[i].name@ == items[i].name@
                &&& r[i].size == items[i].size
                &&& r[i].datetime == chrono_parse_ymd_hms(items[i].datetime_original@)
            },
{
    let mut r: Vec<PackageInput> = Vec::new();
    let mut i: usize = 0;
    while i < items.len()
        invariant
            i <= items.len(),
            r.len() == i,
            forall|k: int|
                0 <= k < i ==> {
                    &&& (#[trigger] r[k]).path@ == items[k].path@
                    &&& r[k].name@ == items[k].name@
                    &&& r[k].size == items[k].size
                    &&& r[k].datetime == chrono_parse_ymd_hms(items[k].datetime_original@)
                },
        decreases items.len() - i,
    {
        let item = &items[i];
        let datetime = parse_ymd_hms(item.datetime_original.as_str());
        r.push(PackageInput {
            path: owned(item.path.as_str()),
            name: owned(item.name.as_str()),
            size: item.size,
            datetime,
        });
        i = i + 1;
    }
    r
}

/// What a packaging run delivers: the packages, with the project's folder name,
/// the operator, the time `created_at`, and the file and byte totals. There must
/// be something to package.
pub fn delivery_manifest(project_root: &str, inputs: &[PackageInput], operator: &str, created_at: String) -> (r: Result<DeliveryManifest, String>)
    requires
        sum_of(input_sizes(inputs@)) <= u64::MAX,
    ensures
        inputs@.len() == 0 <==> r is Err,
        match r {
            Err(e) => e@ == "没有可打包的文件"@,
            Ok(m) => {
                &&& m.project_id@ == file_name_or_empty(project_root@)
                &&& m.created_at@ == created_at@
                &&& m.operator@ == operator@
                &&& exists|bs: Seq<HalfDayBucket>| buckets_ok(inputs@, bs, inputs@.len() as int) && packages_of(inputs@, bs, m.packages@)
                &&& m.total_files == inputs@.len()
                &&& m.total_bytes == sum_of(input_sizes(inputs@))
                &&& sum_of(package_counts(m.packages@)) == m.total_files
                &&& sum_of(package_bytes(m.packages@)) == m.total_bytes
            },
        },
{
    if inputs.len() == 0 {
        return Err("没有可打包的文件".to_owned());
    }
    let packages = build_packages(inputs);
    Ok(DeliveryManifest {
        project_id: file_name_or_default(project_root),
        created_at,
        operator: operator.to_owned(),
        packages,
        total_files: inputs.len() as u64,
        total_bytes: total_input_bytes(inputs),
    })
}

/// The delivery list of a packaging run made now (see [`delivery_manifest`]);
/// `created_at` is the current local time.
pub fn plan_delivery(project_root: &str, inputs: &[PackageInput], operator: &str) -> (r: Result<DeliveryManifest, String>)
    requires
        sum_of(input_sizes(inputs@)) <= u64::MAX,
    ensures
        inputs@.len() == 0 <==> r is Err,
        match r {
            Err(e) => e@ == "没有可打包的文件"@,
            Ok(m) => {
                &&& m.project_id@ == file_name_or_empty(project_root@)
                &&& m.operator@ == operator@
                &&& exists|bs: Seq<HalfDayBucket>| buckets_ok(inputs@, bs, inputs@.len() as int) && packages_of(inputs@, bs, m.packages@)
                &&& m.total_files == inputs@.len()
                &&& m.total_bytes == sum_of(input_sizes(inputs@))
                &&& rfc3339_stamp(m.created_at@)
            },
        },
{
    let now = now_rfc3339();
    delivery_manifest(project_root, inputs, operator, now)
}

/// The name for the `n`-th copy of `name` in a folder that already holds it:
/// `{base}_{n}.{ext}`, or `{name}_{n}` when the name has no extension (a leading
/// `.` does not start one).
pub open spec fn numbered_name_of(name: Seq<char>, n: nat) -> Seq<char> {
    let k = last_index(name, '.');
    if k > 0 {
        name.take(k) + seq!['_'] + decimal(n) + seq!['.'] + name.skip(k + 1)
    } else {
        name + seq!['_'] + decimal(n)
    }
}

/// Name for a file whose name is already taken in a package folder.
pub fn numbered_name(name: &str, n: u32) -> (r: String)
    ensures
        r@ == numbered_name_of(name@, n as nat),
{
    let v = chars_of(name);
    let num = decimal_string(n as u64);
    let dot = rfind_char(v.as_slice(), '.');
    match dot {
        Some(k) => {
            if k > 0 {
                let len = v.len();
                let base = slice_range(v.as_slice(), 0, k);
                let ext = slice_range(v.as_slice(), k + 1, len);
                let mut r = string_of(base.as_slice());
                push_char(&mut r, '_');
                r.append(num.as_str());
                push_char(&mut r, '.');
                push_chars(&mut r, ext.as_slice());
                assert(r@ =~= numbered_name_of(name@, n as nat));
                return r;
            }
        },
        None => {},
    }
    let mut r = name.to_owned();
    push_char(&mut r, '_');
    r.append(num.as_str());
    assert(r@ =~= numbered_name_of(name@, n as nat));
    r
}

// ---------------------------------------------------------------------------
// Upload list
// ---------------------------------------------------------------------------

/// One `  - {path}` line per file.
pub open spec fn files_text(files: Seq<Seq<char>>) -> Seq<char>
    decreases files.len(),
{
    if files.len() == 0 {
        Seq::empty()
    } else {
        files_text(files.drop_last()) + "  - "@ + files.last() + "\n"@
    }
}

/// The file lines of a list: joining two lists of files joins their lines, a list
/// of one file gives the one line `  - {path}`, and no files give no text. So every
/// file gets its own line, in order.
pub proof fn lemma_files_text_concat(a: Seq<Seq<char>>, b: Seq<Seq<char>>)
    ensures
        files_text(a + b) == files_text(a) + files_text(b),
        files_text(Seq::<Seq<char>>::empty()) == Seq::<char>::empty(),
        forall|f: Seq<char>| files_text(seq![f]) == "  - "@ + f + "\n"@,
    decreases b.len(),
{
    assert forall|f: Seq<char>| files_text(seq![f]) == "  - "@ + f + "\n"@ by {
        assert(seq![f].drop_last() =~= Seq::<Seq<char>>::empty());
        assert(files_text(seq![f].drop_last()) == Seq::<char>::empty());
        assert(seq![f].last() == f);
        assert(files_text(seq![f]) =~= "  - "@ + f + "\n"@);
    }
    if b.len() == 0 {
        assert(a + b =~= a);
        assert(files_text(a) + Seq::<char>::empty() =~= files_text(a));
    } else {
        lemma_files_text_concat(a, b.drop_last());
        assert((a + b).drop_last() =~= a + b.drop_last());
        assert((a + b).last() == b.last());
        assert(files_text(a + b) =~= files_text(a) + files_text(b));
    }
}

/// Each file of a package has its line in the package's block of the upload list:
/// the file lines split at file `i` into the lines before it, its own line
/// `  - {path}`, and the lines after it.
pub proof fn lemma_files_text_line(files: Seq<Seq<char>>, i: int)
    requires
        0 <= i < files.len(),
    ensures
        files_text(files) == files_text(files.take(i)) + "  - "@ + files[i] + "\n"@ + files_text(files.skip(i + 1)),
{
    let before = files.take(i);
    let one = seq![files[i]];
    let after = files.skip(i + 1);
    assert(files =~= before + one + after);
    lemma_files_text_concat(before + one, after);
    lemma_files_text_concat(before, one);
    assert(files_text(files) =~= files_text(before) + "  - "@ + files[i] + "\n"@ + files_text(after));
}

/// A package's block of the upload list.
pub open spec fn package_text(p: Package) -> Seq<char> {
    "📦 "@ + p.name@ + "（"@ + decimal(p.count as nat) + " 张，"@ + decimal(p.total_bytes as nat) + " 字节）\n"@
        + files_text(string_views(p.files@)) + "\n"@
}

/// The blocks of all packages.
pub open spec fn packages_text(ps: Seq<Package>) -> Seq<char>
    decreases ps.len(),
{
    if ps.len() == 0 {
        Seq::empty()
    } else {
        packages_text(ps.drop_last()) + package_text(ps.last())
    }
}

/// The upload list: a header with the project, time and totals, then each package
/// with its file count, size and files.
pub open spec fn upload_text(m: DeliveryManifest) -> Seq<char> {
    "交付清单 - "@ + m.project_id@ + "（"@ + m.created_at@ + "）\n共 "@ + decimal(m.packages@.len())
        + " 个包，"@ + decimal(m.total_files as nat) + " 个文件，"@ + decimal(m.total_bytes as nat)
        + " 字节\n\n"@ + packages_text(m.packages@)
}

fn push_package_text(s: &mut String, p: &Package)
    ensures
        final(s)@ == old(s)@ + package_text(*p),
{
    let ghost start = s@;
    s.append("📦 ");
    s.append(p.name.as_str());
    s.append("（");
    let c = decimal_string(p.count);
    s.append(c.as_str());
    s.append(" 张，");
    let b = decimal_string(p.total_bytes);
    s.append(b.as_str());
    s.append(" 字节）\n");
    let ghost head = s@;
    let ghost fs = string_views(p.files@);
    let mut a: usize = 0;
    while a < p.files.len()
        invariant
            a <= p.files@.len(),
            fs == string_views(p.files@),
            s@ == head + files_text(fs.take(a as int)),
        decreases p.files@.len() - a,
    {
        s.append("  - ");
        s.append(p.files[a].as_str());
        s.append("\n");
        proof {
            assert(fs.take(a + 1).drop_last() =~= fs.take(a as int));
            assert(s@ =~= head + files_text(fs.take(a + 1)));
        }
        a = a + 1;
    }
    assert(fs.take(p.files@.len() as int) =~= fs);
    s.append("\n");
    assert(s@ =~= start + package_text(*p));
}

/// The list of packages to upload by hand, as text.
pub fn upload_list_text(manifest: &DeliveryManifest) -> (r: String)
    ensures
        r@ == upload_text(*manifest),
{
    let mut s = "交付清单 - ".to_owned();
    s.append(manifest.project_id.as_str());
    s.append("（");
    s.append(manifest.created_at.as_str());
    s.append("）\n共 ");
    let np = decimal_string(manifest.packages.len() as u64);
    s.append(np.as_str());
    s.append(" 个包，");
    let nf = decimal_string(manifest.total_files);
    s.append(nf.as_str());
    s.append(" 个文件，");
    let nb = decimal_string(manifest.total_bytes);
    s.append(nb.as_str());
    s.append(" 字节\n\n");
    let ghost head = s@;
    let ghost ps = manifest.packages@;
    let mut k: usize = 0;
    while k < manifest.packages.len()
        invariant
            k <= ps.len(),
            ps == manifest.packages@,
            s@ == head + packages_text(ps.take(k as int)),
        decreases ps.len() - k,
    {
        push_package_text(&mut s, &manifest.packages[k]);
        proof {
            assert(ps.take(k + 1).drop_last() =~= ps.take(k as int));
            assert(s@ =~= head + packages_text(ps.take(k + 1)));
        }
        k = k + 1;
    }
    assert(ps.take(ps.len() as int) =~= ps);
    assert(s@ =~= upload_text(*manifest));
    s
}

proof fn lemma_push_index(inputs: Seq<PackageInput>, bs: Seq<HalfDayBucket>, i: usize, j: int)
    requires
        0 <= i < inputs.len(),
        buckets_ok(inputs, bs, i as int),
        0 <= j < bs.len(),
        bucket_key(bs[j]) == input_key(inputs[i as int]),
    ensures
        forall|b: HalfDayBucket| b.date@ == bs[j].date@ && b.half == bs[j].half && b.indices@ == bs[j].indices@.push(i)
            ==> buckets_ok(inputs, #[trigger] bs.update(j, b), i + 1),
{
    assert forall|b: HalfDayBucket| b.date@ == bs[j].date@ && b.half == bs[j].half && b.indices@ == bs[j].indices@.push(i)
        implies buckets_ok(inputs, #[trigger] bs.update(j, b), i + 1) by {
        let nb = bs.update(j, b);
        assert forall|jj: int, kk: int| 0 <= jj < kk < nb.len() implies key_less(bucket_key(#[trigger] nb[jj]), bucket_key(#[trigger] nb[kk])) by {
            assert(bucket_key(nb[jj]) == bucket_key(bs[jj]));
            assert(bucket_key(nb[kk]) == bucket_key(bs[kk]));
        }
        assert forall|jj: int| 0 <= jj < nb.len() implies (#[trigger] nb[jj]).indices@.len() > 0 by {}
        assert forall|jj: int, a: int| 0 <= jj < nb.len() && 0 <= a < nb[jj].indices@.len() implies {
            let x = #[trigger] nb[jj].indices@[a];
            &&& 0 <= x < i + 1
            &&& input_key(inputs[x as int]) == bucket_key(nb[jj])
        } by {
            assert(bucket_key(nb[jj]) == bucket_key(bs[jj]));
            if jj == j && a == bs[j].indices@.len() {
                assert(nb[jj].indices@[a] == i);
            } else {
                assert(nb[jj].indices@[a] == bs[jj].indices@[a]);
            }
        }
        assert forall|jj: int, a: int, c: int| 0 <= jj < nb.len() && 0 <= a < c < nb[jj].indices@.len() implies #[trigger] nb[jj].indices@[a] < #[trigger] nb[jj].indices@[c] by {
            if jj == j {
                if c == bs[j].indices@.len() {
                    assert(nb[jj].indices@[a] == bs[j].indices@[a]);
                    assert(bs[j].indices@[a] < i);
                } else {
                    assert(nb[jj].indices@[a] == bs[j].indices@[a]);
                    assert(nb[jj].indices@[c] == bs[j].indices@[c]);
                }
            }
        }
        assert forall|x: int| 0 <= x < i + 1 implies #[trigger] covers(nb, x) by {
            if x == i {
                assert(nb[j].indices@[bs[j].indices@.len() as int] == x);
            } else {
                assert(covers(bs, x));
                let (jj, a) = choose|jj: int, a: int| 0 <= jj < bs.len() && 0 <= a < bs[jj].indices@.len() && #[trigger] bs[jj].indices@[a] == x;
                assert(nb[jj].indices@[a] == x);
            }
        }
    }
}

proof fn lemma_insert_bucket(inputs: Seq<PackageInput>, bs: Seq<HalfDayBucket>, i: usize, j: int, key: (Seq<char>, HalfDay))
    requires
        0 <= i < inputs.len(),
        buckets_ok(inputs, bs, i as int),
        0 <= j <= bs.len(),
        key == input_key(inputs[i as int]),
        forall|jj: int| 0 <= jj < j ==> key_less(bucket_key(#[trigger] bs[jj]), key),
        j < bs.len() ==> key_less(key, bucket_key(bs[j])),
    ensures
        forall|b: HalfDayBucket| bucket_key(b) == key && b.indices@ == seq![i]
            ==> buckets_ok(inputs, #[trigger] bs.insert(j, b), i + 1),
{
    assert forall|b: HalfDayBucket| bucket_key(b) == key && b.indices@ == seq![i]
        implies buckets_ok(inputs, #[trigger] bs.insert(j, b), i + 1) by {
        let nb = bs.insert(j, b);
        assert forall|p: int, q: int| 0 <= p < q < nb.len() implies key_less(bucket_key(#[trigger] nb[p]), bucket_key(#[trigger] nb[q])) by {
            if q < j {
                assert(nb[p] == bs[p] && nb[q] == bs[q]);
            } else if q == j {
                assert(nb[p] == bs[p]);
            } else if p < j {
                assert(nb[p] == bs[p] && nb[q] == bs[q - 1]);
                lemma_key_less_order(bucket_key(bs[p]), key, bucket_key(bs[j]));
                if q - 1 > j {
                    lemma_key_less_order(key, bucket_key(bs[j]), bucket_key(bs[q - 1]));
                }
                lemma_key_less_order(bucket_key(bs[p]), bucket_key(bs[j]), bucket_key(bs[q - 1]));
            } else if p == j {
                assert(nb[q] == bs[q - 1]);
                if q - 1 > j {
                    lemma_key_less_order(key, bucket_key(bs[j]), bucket_key(bs[q - 1]));
                }
            } else {
                assert(nb[p] == bs[p - 1] && nb[q] == bs[q - 1]);
            }
        }
        assert forall|jj: int| 0 <= jj < nb.len() implies (#[trigger] nb[jj]).indices@.len() > 0 by {
            if jj < j {
                assert(nb[jj] == bs[jj]);
            } else if jj > j {
                assert(nb[jj] == bs[jj - 1]);
            }
        }
        assert forall|jj: int, a: int| 0 <= jj < nb.len() && 0 <= a < nb[jj].indices@.len() implies {
            let x = #[trigger] nb[jj].indices@[a];
            &&& 0 <= x < i + 1
            &&& input_key(inputs[x as int]) == bucket_key(nb[jj])
        } by {
            if jj < j {
                assert(nb[jj] == bs[jj]);
                assert(nb[jj].indices@[a] == bs[jj].indices@[a]);
            } else if jj > j {
                assert(nb[jj] == bs[jj - 1]);
                assert(nb[jj].indices@[a] == bs[jj - 1].indices@[a]);
            }
        }
        assert forall|jj: int, a: int, c: int| 0 <= jj < nb.len() && 0 <= a < c < nb[jj].indices@.len() implies #[trigger] nb[jj].indices@[a] < #[trigger] nb[jj].indices@[c] by {
            if jj < j {
                assert(nb[jj] == bs[jj]);
                assert(bs[jj].indices@[a] < bs[jj].indices@[c]);
            } else if jj > j {
                assert(nb[jj] == bs[jj - 1]);
                assert(bs[jj - 1].indices@[a] < bs[jj - 1].indices@[c]);
            }
        }
        assert forall|x: int| 0 <= x < i + 1 implies #[trigger] covers(nb, x) by {
            if x == i {
                assert(nb[j].indices@[0] == x);
            } else {
                assert(covers(bs, x));
                let (jj, a) = choose|jj: int, a: int| 0 <= jj < bs.len() && 0 <= a < bs[jj].indices@.len() && #[trigger] bs[jj].indices@[a] == x;
                if jj < j {
                    assert(nb[jj] == bs[jj]);
                    assert(nb[jj].indices@[a] == x);
                } else {
                    assert(nb[jj + 1] == bs[jj]);
                    assert(nb[jj + 1].indices@[a] == x);
                }
            }
        }
    }
}

} // verus!
