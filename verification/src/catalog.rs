//! The scene asset catalog: stable asset ids for the files a scene references.
use vstd::prelude::*;
use vstd::string::*;
use crate::panel::str_eq;

verus! {

/// What kind of file a catalog entry refers to.
#[derive(Clone, Copy, Debug, PartialEq, Eq, Structural)]
pub enum XrdsSceneAssetKind {
    Gltf,
    Texture,
    Audio,
    EnvironmentMap,
}

/// A catalog entry: a stable id, the file's uri and its kind.
#[derive(Debug)]
pub struct XrdsSceneAsset {
    pub id: String,
    pub uri: String,
    pub kind: XrdsSceneAssetKind,
}

/// An asset by value: (id, uri, kind).
pub type AssetView = (Seq<char>, Seq<char>, XrdsSceneAssetKind);

pub open spec fn asset_view(a: XrdsSceneAsset) -> AssetView {
    (a.id@, a.uri@, a.kind)
}

pub open spec fn assets_view(s: Seq<XrdsSceneAsset>) -> Seq<AssetView> {
    s.map_values(|a: XrdsSceneAsset| asset_view(a))
}

/// Whether some entry of `s` has id `id`.
pub open spec fn has_asset_id(s: Seq<AssetView>, id: Seq<char>) -> bool {
    exists|i: int| 0 <= i < s.len() && #[trigger] s[i].0 == id
}

/// `acc` followed by the entries of `preserved` whose id is not taken yet, in order.
pub open spec fn merged_catalog(preserved: Seq<AssetView>, acc: Seq<AssetView>) -> Seq<AssetView>
    decreases preserved.len(),
{
    if preserved.len() == 0 {
        acc
    } else {
        let a = merged_catalog(preserved.drop_last(), acc);
        if has_asset_id(a, preserved.last().0) {
            a
        } else {
            a.push(preserved.last())
        }
    }
}

impl XrdsSceneAsset {
    /// A copy of this entry.
    pub fn copy(&self) -> (r: XrdsSceneAsset)
        ensures
            asset_view(r) == asset_view(*self),
    {
        XrdsSceneAsset { id: self.id.clone(), uri: self.uri.clone(), kind: self.kind }
    }
}

fn catalog_has_id(assets: &Vec<XrdsSceneAsset>, id: &String) -> (r: bool)
    ensures
        r == has_asset_id(assets_view(assets@), id@),
{
    let mut i: usize = 0;
    while i < assets.len()
        invariant
            i <= assets.len(),
            forall|j: int| 0 <= j < i ==> #[trigger] assets@[j].id@ != id@,
        decreases assets.len() - i,
    {
        if str_eq(assets[i].id.as_str(), id.as_str()) {
            assert(assets_view(assets@)[i as int].0 == id@);
            return true;
        }
        i = i + 1;
    }
    assert forall|j: int| 0 <= j < assets_view(assets@).len() implies #[trigger] assets_view(assets@)[j].0 != id@ by {
        assert(assets_view(assets@)[j].0 == assets@[j].id@);
    }
    false
}

/// Add the `preserved` entries whose id is not already used to `reconstructed_assets`.
pub fn merge_asset_catalogs(
    preserved_assets: &[XrdsSceneAsset],
    reconstructed_assets: Vec<XrdsSceneAsset>,
) -> (r: Vec<XrdsSceneAsset>)
    ensures
        assets_view(r@) == merged_catalog(assets_view(preserved_assets@), assets_view(reconstructed_assets@)),
{
    let ghost pres = assets_view(preserved_assets@);
    let ghost acc0 = assets_view(reconstructed_assets@);
    let mut assets = reconstructed_assets;
    let mut i: usize = 0;
    while i < preserved_assets.len()
        invariant
            i <= preserved_assets.len(),
            pres == assets_view(preserved_assets@),
            assets_view(assets@) == merged_catalog(pres.take(i as int), acc0),
        decreases preserved_assets.len() - i,
    {
        assert(pres.take(i + 1).drop_last() =~= pres.take(i as int));
        assert(pres.take(i + 1).last() == asset_view(preserved_assets@[i as int]));
        let asset = &preserved_assets[i];
        if !catalog_has_id(&assets, &asset.id) {
            let ghost before = assets@;
            assets.push(asset.copy());
            assert(assets_view(assets@) =~= assets_view(before).push(asset_view(*asset)));
        }
        i = i + 1;
    }
    assert(pres.take(preserved_assets.len() as int) =~= pres);
    assets
}

/// Merge incoming scene assets into the runtime catalog: entries already present keep their
/// place and content; incoming entries with a new id are appended.
pub fn merge_imported_asset_catalog(catalog: &mut Vec<XrdsSceneAsset>, assets: &[XrdsSceneAsset])
    ensures
        assets_view(final(catalog)@) == merged_catalog(assets_view(assets@), assets_view(old(catalog)@)),
{
    let mut existing: Vec<XrdsSceneAsset> = Vec::new();
    core::mem::swap(catalog, &mut existing);
    let merged = merge_asset_catalogs(assets, existing);
    *catalog = merged;
}

/// The character of the decimal digit `d`.
pub open spec fn digit_char(d: nat) -> char {
    (48 + d) as char
}

/// The decimal digits of `n`, most significant first.
pub open spec fn decimal(n: nat) -> Seq<char>
    decreases n,
{
    if n < 10 {
        seq![digit_char(n)]
    } else {
        decimal(n / 10).push(digit_char(n % 10))
    }
}

/// Distinct numbers have distinct decimal forms.
pub proof fn lemma_decimal_injective(a: nat, b: nat)
    requires
        decimal(a) == decimal(b),
    ensures
        a == b,
    decreases a,
{
    if a < 10 && b >= 10 {
        assert(decimal(b / 10).len() >= 1);
        assert(decimal(b).len() >= 2);
        assert(decimal(a).len() == 1);
        assert(false);
    } else if a >= 10 && b < 10 {
        assert(decimal(a / 10).len() >= 1);
        assert(decimal(a).len() >= 2);
        assert(decimal(b).len() == 1);
        assert(false);
    } else if a >= 10 && b >= 10 {
        assert(decimal(a).drop_last() =~= decimal(a / 10));
        assert(decimal(b).drop_last() =~= decimal(b / 10));
        assert(decimal(a).last() == decimal(b).last());
        assert(decimal(a).last() == digit_char(a % 10));
        assert(decimal(b).last() == digit_char(b % 10));
        assert(digit_char(a % 10) as int == 48 + a % 10);
        assert(digit_char(b % 10) as int == 48 + b % 10);
        assert(a % 10 == b % 10);
        lemma_decimal_injective(a / 10, b / 10);
        assert(a == 10 * (a / 10) + a % 10);
        assert(b == 10 * (b / 10) + b % 10);
        assert(a == b);
    } else {
        assert(decimal(a)[0] == decimal(b)[0]);
        assert(decimal(a)[0] == digit_char(a));
        assert(decimal(b)[0] == digit_char(b));
        assert(digit_char(a) as int == 48 + a);
        assert(digit_char(b) as int == 48 + b);
        assert(a == b);
    }
}

/// Append the decimal digits of `n` to `s`.
pub fn push_decimal(s: &mut String, n: u128)
    ensures
        final(s)@ == old(s)@ + decimal(n as nat),
    decreases n,
{
    if n >= 10 {
        push_decimal(s, n / 10);
    }
    let d: u8 = (n % 10) as u8;
    let c: char = (48u8 + d) as char;
    assert(c == digit_char((n % 10) as nat));
    crate::paths::push_char(s, c);
    assert(s@ =~= old(s)@ + decimal(n as nat));
}

/// Append the characters of `t` to `s`.
pub fn push_text(s: &mut String, t: &str)
    ensures
        final(s)@ == old(s)@ + t@,
{
    let n = t.unicode_len();
    let mut i: usize = 0;
    while i < n
        invariant
            i <= n,
            n == t@.len(),
            s@ == old(s)@ + t@.take(i as int),
        decreases n - i,
    {
        let c = t.get_char(i);
        crate::paths::push_char(s, c);
        assert(t@.take(i + 1) =~= t@.take(i as int).push(c));
        assert(s@ =~= old(s)@ + t@.take(i + 1));
        i = i + 1;
    }
    assert(t@.take(n as int) =~= t@);
}

/// An ASCII letter or digit.
pub open spec fn is_ascii_alnum(c: char) -> bool {
    ||| ('0' <= c && c <= '9')
    ||| ('a' <= c && c <= 'z')
    ||| ('A' <= c && c <= 'Z')
}

/// `c` with ASCII capitals lowered.
pub open spec fn ascii_lower(c: char) -> char {
    if 'A' <= c && c <= 'Z' { ((c as u32) + 32) as char } else { c }
}

/// Reading `uri`: its ASCII letters and digits lowered, each run of other characters as one
/// dash; and whether it ends in such a run.
pub open spec fn seed_scan(uri: Seq<char>) -> (Seq<char>, bool)
    decreases uri.len(),
{
    if uri.len() == 0 {
        (Seq::empty(), false)
    } else {
        let prev = seed_scan(uri.drop_last());
        let c = uri.last();
        if is_ascii_alnum(c) {
            (prev.0.push(ascii_lower(c)), false)
        } else if !prev.1 {
            (prev.0.push('-'), true)
        } else {
            prev
        }
    }
}

/// `s` without leading dashes.
pub open spec fn trim_leading_dashes(s: Seq<char>) -> Seq<char>
    decreases s.len(),
{
    if s.len() > 0 && s[0] == '-' { trim_leading_dashes(s.skip(1)) } else { s }
}

/// `s` without trailing dashes.
pub open spec fn trim_trailing_dashes(s: Seq<char>) -> Seq<char>
    decreases s.len(),
{
    if s.len() > 0 && s.last() == '-' { trim_trailing_dashes(s.drop_last()) } else { s }
}

/// The id a catalog entry for the glTF file `uri` is named after when none is given:
/// `gltf-` and the dashed, lowered form of the uri, or `gltf-asset` when nothing is left.
pub open spec fn id_seed(uri: Seq<char>) -> Seq<char> {
    let t = trim_leading_dashes(trim_trailing_dashes(seed_scan(uri).0));
    if t.len() == 0 {
        seq!['g', 'l', 't', 'f', '-', 'a', 's', 's', 'e', 't']
    } else {
        seq!['g', 'l', 't', 'f', '-'] + t
    }
}

/// The catalog id seed for the glTF file `uri`.
pub fn asset_catalog_id_seed(uri: &str) -> (r: String)
    ensures
        r@ == id_seed(uri@),
{
    let n = uri.unicode_len();
    let mut seed = String::new();
    let mut previous_was_separator = false;
    let mut i: usize = 0;
    while i < n
        invariant
            i <= n,
            n == uri@.len(),
            (seed@, previous_was_separator) == seed_scan(uri@.take(i as int)),
        decreases n - i,
    {
        assert(uri@.take(i + 1).drop_last() =~= uri@.take(i as int));
        let c = uri.get_char(i);
        assert(uri@.take(i + 1).last() == c);
        if ('0' <= c && c <= '9') || ('a' <= c && c <= 'z') {
            crate::paths::push_char(&mut seed, c);
            previous_was_separator = false;
        } else if 'A' <= c && c <= 'Z' {
            let lower: char = ((c as u8) + 32) as char;
            assert(lower == ascii_lower(c));
            crate::paths::push_char(&mut seed, lower);
            previous_was_separator = false;
        } else if !previous_was_separator {
            crate::paths::push_char(&mut seed, '-');
            previous_was_separator = true;
        }
        i = i + 1;
    }
    assert(uri@.take(n as int) =~= uri@);
    let s = seed.as_str();
    let m = s.unicode_len();
    let mut end: usize = m;
    assert(seed@.take(m as int) =~= seed@);
    while end > 0 && s.get_char(end - 1) == '-'
        invariant
            end <= m,
            m == seed@.len(),
            s@ == seed@,
            trim_trailing_dashes(seed@) == trim_trailing_dashes(seed@.take(end as int)),
        decreases end,
    {
        assert(seed@.take(end as int).drop_last() =~= seed@.take(end - 1));
        end = end - 1;
    }
    let ghost tt = seed@.take(end as int);
    assert(trim_trailing_dashes(tt) == tt);
    let mut start: usize = 0;
    while start < end && s.get_char(start) == '-'
        invariant
            start <= end <= m,
            m == seed@.len(),
            s@ == seed@,
            tt == seed@.take(end as int),
            trim_leading_dashes(tt) == trim_leading_dashes(seed@.subrange(start as int, end as int)),
        decreases end - start,
    {
        assert(seed@.subrange(start as int, end as int).skip(1) =~= seed@.subrange(start + 1, end as int));
        start = start + 1;
    }
    assert(tt =~= seed@.subrange(0, end as int)) ;
    let ghost core = seed@.subrange(start as int, end as int);
    assert(trim_leading_dashes(core) == core);
    let mut r = String::new();
    if start == end {
        crate::paths::push_char(&mut r, 'g');
        crate::paths::push_char(&mut r, 'l');
        crate::paths::push_char(&mut r, 't');
        crate::paths::push_char(&mut r, 'f');
        crate::paths::push_char(&mut r, '-');
        crate::paths::push_char(&mut r, 'a');
        crate::paths::push_char(&mut r, 's');
        crate::paths::push_char(&mut r, 's');
        crate::paths::push_char(&mut r, 'e');
        crate::paths::push_char(&mut r, 't');
        assert(r@ =~= seq!['g', 'l', 't', 'f', '-', 'a', 's', 's', 'e', 't']);
    } else {
        crate::paths::push_char(&mut r, 'g');
        crate::paths::push_char(&mut r, 'l');
        crate::paths::push_char(&mut r, 't');
        crate::paths::push_char(&mut r, 'f');
        crate::paths::push_char(&mut r, '-');
        let ghost head = r@;
        assert(head =~= seq!['g', 'l', 't', 'f', '-']);
        let mut k: usize = start;
        while k < end
            invariant
                start <= k <= end <= m,
                m == seed@.len(),
                s@ == seed@,
                r@ == head + seed@.subrange(start as int, k as int),
            decreases end - k,
        {
            crate::paths::push_char(&mut r, s.get_char(k));
            assert(seed@.subrange(start as int, k + 1) =~= seed@.subrange(start as int, k as int).push(seed@[k as int]));
            k = k + 1;
        }
    }
    r
}

/// `preferred` with a dash and the decimal form of `counter`.
pub open spec fn numbered(preferred: Seq<char>, counter: nat) -> Seq<char> {
    preferred + seq!['-'] + decimal(counter)
}

/// `c` is the first number from 2 on whose numbered form of `preferred` `used` lacks.
pub open spec fn is_first_free(preferred: Seq<char>, used: Seq<Seq<char>>, c: nat) -> bool {
    &&& c >= 2
    &&& !used.contains(numbered(preferred, c))
    &&& forall|d: nat| 2 <= d < c ==> used.contains(#[trigger] numbered(preferred, d))
}

/// The first numbered form of `preferred` from 2 on that `used` lacks.
pub open spec fn first_free_number(preferred: Seq<char>, used: Seq<Seq<char>>) -> nat {
    choose|c: nat| is_first_free(preferred, used, c)
}

/// At most one number is the first free one.
proof fn lemma_first_free_unique(p: Seq<char>, used: Seq<Seq<char>>, c: nat)
    requires
        is_first_free(p, used, c),
    ensures
        first_free_number(p, used) == c,
{
    let f = first_free_number(p, used);
    assert(is_first_free(p, used, f));
    if f < c {
        assert(used.contains(numbered(p, f)));
    } else if f > c {
        assert(used.contains(numbered(p, c)));
    }
}

/// `preferred` when `used` lacks it, otherwise its first free numbered form.
pub open spec fn unique_id(preferred: Seq<char>, used: Seq<Seq<char>>) -> Seq<char> {
    if !used.contains(preferred) {
        preferred
    } else {
        numbered(preferred, first_free_number(preferred, used))
    }
}

/// The strings of `v`, by value.
pub open spec fn strings_view(v: Seq<String>) -> Seq<Seq<char>> {
    v.map_values(|s: String| s@)
}

/// Whether `v` holds a string equal to `s`.
pub fn contains_str(v: &Vec<String>, s: &str) -> (r: bool)
    ensures
        r == strings_view(v@).contains(s@),
{
    let mut i: usize = 0;
    while i < v.len()
        invariant
            i <= v@.len(),
            forall|j: int| 0 <= j < i ==> v@[j]@ != s@,
        decreases v.len() - i,
    {
        if str_eq(v[i].as_str(), s) {
            assert(strings_view(v@)[i as int] == s@);
            return true;
        }
        i = i + 1;
    }
    assert forall|j: int| 0 <= j < strings_view(v@).len() implies strings_view(v@)[j] != s@ by {
        assert(strings_view(v@)[j] == v@[j]@);
    }
    false
}

proof fn lemma_numbered_injective(p: Seq<char>, a: nat, b: nat)
    requires
        numbered(p, a) == numbered(p, b),
    ensures
        a == b,
{
    let pa = numbered(p, a);
    assert(pa.skip(p.len() as int + 1) =~= decimal(a));
    assert(numbered(p, b).skip(p.len() as int + 1) =~= decimal(b));
    lemma_decimal_injective(a, b);
}

/// Trying numbers 2 up to `c` inclusive, all taken, means `used` has at least that many
/// strings.
proof fn lemma_numbers_fit(p: Seq<char>, used: Seq<Seq<char>>, c: nat)
    requires
        c >= 2,
        forall|d: nat| 2 <= d <= c ==> used.contains(#[trigger] numbered(p, d)),
    ensures
        c - 1 <= used.len(),
{
    let tried = Seq::new((c - 1) as nat, |i: int| numbered(p, (i + 2) as nat));
    assert forall|i: int, j: int| 0 <= i < tried.len() && 0 <= j < tried.len() && i != j implies tried[i] != tried[j] by {
        if tried[i] == tried[j] {
            lemma_numbered_injective(p, (i + 2) as nat, (j + 2) as nat);
        }
    }
    assert forall|i: int| 0 <= i < tried.len() implies used.to_set().contains(#[trigger] tried[i]) by {
        assert(used.contains(numbered(p, (i + 2) as nat)));
    }
    used.lemma_cardinality_of_set();
    crate::structure::lemma_seq_len_bound(tried, used.to_set());
}

/// Searching upward from `d`, past numbers all taken, finds a first free number.
proof fn lemma_first_free_from(p: Seq<char>, used: Seq<Seq<char>>, d: nat)
    requires
        2 <= d <= used.len() + 2,
        forall|e: nat| 2 <= e < d ==> used.contains(#[trigger] numbered(p, e)),
    ensures
        exists|c: nat| is_first_free(p, used, c),
    decreases used.len() + 2 - d,
{
    if !used.contains(numbered(p, d)) {
        assert(is_first_free(p, used, d));
    } else if d == used.len() + 2 {
        lemma_numbers_fit(p, used, d);
    } else {
        lemma_first_free_from(p, used, d + 1);
    }
}

/// The id `unique_id` picks is not among the used ones.
pub proof fn lemma_unique_id_is_fresh(preferred: Seq<char>, used: Seq<Seq<char>>)
    ensures
        !used.contains(unique_id(preferred, used)),
{
    if used.contains(preferred) {
        lemma_first_free_from(preferred, used, 2);
        let c = choose|c: nat| is_first_free(preferred, used, c);
        lemma_first_free_unique(preferred, used, c);
    }
}

/// No two entries of `s` share an id.
pub open spec fn distinct_ids(s: Seq<AssetView>) -> bool {
    forall|i: int, j: int| 0 <= i < j < s.len() ==> #[trigger] s[i].0 != #[trigger] s[j].0
}

/// No two entries of `s` share a uri.
pub open spec fn distinct_uris(s: Seq<AssetView>) -> bool {
    forall|i: int, j: int| 0 <= i < j < s.len() ==> #[trigger] s[i].1 != #[trigger] s[j].1
}

/// The ids of the entries of `s`, in order.
pub open spec fn ids_of_assets(s: Seq<AssetView>) -> Seq<Seq<char>> {
    s.map_values(|a: AssetView| a.0)
}

/// The catalog rebuilt from glTF nodes records exactly its own ids as used, and has neither
/// two entries with one id nor two with one uri.
pub proof fn lemma_rebuilt_catalog_wf(refs: Seq<XrdsGltfAssetRef>)
    ensures
        rebuilt_catalog(refs).1 == ids_of_assets(rebuilt_catalog(refs).0),
        distinct_ids(rebuilt_catalog(refs).0),
        distinct_uris(rebuilt_catalog(refs).0),
    decreases refs.len(),
{
    if refs.len() > 0 {
        let prev = rebuilt_catalog(refs.drop_last());
        lemma_rebuilt_catalog_wf(refs.drop_last());
        let r = refs.last();
        if !has_uri(prev.0, r.uri@) {
            let id = unique_id(preferred_id(r), prev.1);
            lemma_unique_id_is_fresh(preferred_id(r), prev.1);
            let next = prev.0.push((id, r.uri@, XrdsSceneAssetKind::Gltf));
            assert(ids_of_assets(next) =~= prev.1.push(id));
            assert forall|i: int, j: int| 0 <= i < j < next.len() implies #[trigger] next[i].0 != #[trigger] next[j].0 by {
                if j == prev.0.len() {
                    assert(prev.1[i] == prev.0[i].0);
                    assert(prev.1.contains(prev.0[i].0));
                }
            }
            assert forall|i: int, j: int| 0 <= i < j < next.len() implies #[trigger] next[i].1 != #[trigger] next[j].1 by {
                if j == prev.0.len() && next[i].1 == next[j].1 {
                    assert(prev.0[i].1 == r.uri@);
                }
            }
        }
    }
}

/// Merging into a catalog without repeated ids gives one without repeated ids.
pub proof fn lemma_merged_catalog_distinct(preserved: Seq<AssetView>, acc: Seq<AssetView>)
    requires
        distinct_ids(acc),
    ensures
        distinct_ids(merged_catalog(preserved, acc)),
    decreases preserved.len(),
{
    if preserved.len() > 0 {
        lemma_merged_catalog_distinct(preserved.drop_last(), acc);
        let a = merged_catalog(preserved.drop_last(), acc);
        if !has_asset_id(a, preserved.last().0) {
            let next = a.push(preserved.last());
            assert forall|i: int, j: int| 0 <= i < j < next.len() implies #[trigger] next[i].0 != #[trigger] next[j].0 by {
                if j == a.len() && next[i].0 == next[j].0 {
                    assert(a[i].0 == preserved.last().0);
                }
            }
        }
    }
}

/// Record an id unique among `used_ids`: `preferred` itself when free, otherwise
/// `preferred-2`, `preferred-3`, ... whichever comes first that is free.
pub fn unique_asset_id(preferred: String, used_ids: &mut Vec<String>) -> (r: String)
    ensures
        r@ == unique_id(preferred@, strings_view(old(used_ids)@)),
        strings_view(final(used_ids)@) == strings_view(old(used_ids)@).push(r@),
{
    let ghost used = strings_view(used_ids@);
    if !contains_str(used_ids, preferred.as_str()) {
        let copy = preferred.clone();
        used_ids.push(copy);
        assert(strings_view(used_ids@) =~= used.push(preferred@));
        return preferred;
    }
    let n = used_ids.len();
    let mut counter: u128 = 2;
    loop
        invariant
            used.len() == n,
            used == strings_view(used_ids@),
            used == strings_view(old(used_ids)@),
            used.contains(preferred@),
            2 <= counter <= used.len() + 2,
            forall|d: nat| 2 <= d < counter ==> used.contains(#[trigger] numbered(preferred@, d)),
        decreases used.len() + 2 - counter,
    {
        let mut candidate = preferred.clone();
        crate::paths::push_char(&mut candidate, '-');
        push_decimal(&mut candidate, counter);
        assert(candidate@ =~= numbered(preferred@, counter as nat));
        if !contains_str(used_ids, candidate.as_str()) {
            proof {
                assert(is_first_free(preferred@, used, counter as nat));
                lemma_first_free_unique(preferred@, used, counter as nat);
            }
            let copy = candidate.clone();
            used_ids.push(copy);
            assert(strings_view(used_ids@) =~= used.push(candidate@));
            return candidate;
        }
        proof {
            lemma_numbers_fit(preferred@, used, counter as nat);
            assert(used.len() == n);
        }
        counter = counter + 1;
    }
}

/// A glTF node of a scene, as the catalog sees it: the file it refers to and the catalog id
/// its editor metadata names, if any.
pub struct XrdsGltfAssetRef {
    pub uri: String,
    pub source_asset_id: Option<String>,
}

/// A character with the Unicode White_Space property.
pub open spec fn is_white_space(c: char) -> bool {
    ||| ('\t' <= c && c <= '\r')
    ||| c == ' '
    ||| c == '\u{85}'
    ||| c == '\u{a0}'
    ||| c == '\u{1680}'
    ||| ('\u{2000}' <= c && c <= '\u{200a}')
    ||| c == '\u{2028}'
    ||| c == '\u{2029}'
    ||| c == '\u{202f}'
    ||| c == '\u{205f}'
    ||| c == '\u{3000}'
}

/// Whether `s` is empty or all white space.
pub fn is_blank(s: &str) -> (r: bool)
    ensures
        r == forall|i: int| 0 <= i < s@.len() ==> #[trigger] is_white_space(s@[i]),
{
    let n = s.unicode_len();
    let mut i: usize = 0;
    while i < n
        invariant
            i <= n,
            n == s@.len(),
            forall|j: int| 0 <= j < i ==> #[trigger] is_white_space(s@[j]),
        decreases n - i,
    {
        let c = s.get_char(i);
        if !is_white_space_char(c) {
            assert(!is_white_space(s@[i as int]));
            return false;
        }
        i = i + 1;
    }
    true
}

/// The id a glTF node asks for: its editor's catalog id unless that is blank, else the
/// seed of its uri.
pub open spec fn preferred_id(r: XrdsGltfAssetRef) -> Seq<char> {
    match r.source_asset_id {
        Some(s) => if forall|i: int| 0 <= i < s@.len() ==> #[trigger] is_white_space(s@[i]) { id_seed(r.uri@) } else { s@ },
        None => id_seed(r.uri@),
    }
}

/// Whether some entry of `s` refers to the file `uri`.
pub open spec fn has_uri(s: Seq<AssetView>, uri: Seq<char>) -> bool {
    exists|j: int| 0 <= j < s.len() && #[trigger] s[j].1 == uri
}

/// The catalog rebuilt from the glTF nodes `refs`, in order: one entry per distinct uri, with
/// a unique id; and the ids used along the way.
pub open spec fn rebuilt_catalog(refs: Seq<XrdsGltfAssetRef>) -> (Seq<AssetView>, Seq<Seq<char>>)
    decreases refs.len(),
{
    if refs.len() == 0 {
        (Seq::empty(), Seq::empty())
    } else {
        let prev = rebuilt_catalog(refs.drop_last());
        let r = refs.last();
        if has_uri(prev.0, r.uri@) {
            prev
        } else {
            let id = unique_id(preferred_id(r), prev.1);
            (prev.0.push((id, r.uri@, XrdsSceneAssetKind::Gltf)), prev.1.push(id))
        }
    }
}

/// Rebuild the glTF part of a scene's asset catalog from its glTF nodes, in order: the first
/// node referring to a file makes its entry, under the catalog id its editor names (when not
/// blank) or the seed of the file's uri, made unique.
pub fn reconstruct_asset_catalog(refs: &[XrdsGltfAssetRef]) -> (assets: Vec<XrdsSceneAsset>)
    ensures
        assets_view(assets@) == rebuilt_catalog(refs@).0,
{
    let mut assets: Vec<XrdsSceneAsset> = Vec::new();
    let mut used: Vec<String> = Vec::new();
    let mut i: usize = 0;
    while i < refs.len()
        invariant
            i <= refs@.len(),
            assets_view(assets@) == rebuilt_catalog(refs@.take(i as int)).0,
            strings_view(used@) == rebuilt_catalog(refs@.take(i as int)).1,
        decreases refs.len() - i,
    {
        assert(refs@.take(i + 1).drop_last() =~= refs@.take(i as int));
        let r = &refs[i];
        assert(refs@.take(i + 1).last() == *r);
        let ghost prev = rebuilt_catalog(refs@.take(i as int));
        let mut seen = false;
        let mut j: usize = 0;
        while j < assets.len()
            invariant
                j <= assets@.len(),
                assets_view(assets@) == prev.0,
                !seen ==> forall|k: int| 0 <= k < j ==> #[trigger] prev.0[k].1 != r.uri@,
                seen ==> has_uri(prev.0, r.uri@),
            decreases assets.len() - j,
        {
            if !seen && str_eq(assets[j].uri.as_str(), r.uri.as_str()) {
                assert(prev.0[j as int].1 == r.uri@);
                seen = true;
            }
            j = j + 1;
        }
        if !seen {
            let preferred = match &r.source_asset_id {
                Some(s) => if is_blank(s.as_str()) { asset_catalog_id_seed(r.uri.as_str()) } else { s.clone() },
                None => asset_catalog_id_seed(r.uri.as_str()),
            };
            assert(preferred@ == preferred_id(*r));
            let id = unique_asset_id(preferred, &mut used);
            let ghost before = assets@;
            assets.push(XrdsSceneAsset { id, uri: r.uri.clone(), kind: XrdsSceneAssetKind::Gltf });
            assert(assets_view(assets@) =~= assets_view(before).push(asset_view(assets@.last())));
        }
        i = i + 1;
    }
    assert(refs@.take(refs.len() as int) =~= refs@);
    assets
}

/// `s` without its leading white space.
pub open spec fn trim_start_ws(s: Seq<char>) -> Seq<char>
    decreases s.len(),
{
    if s.len() > 0 && is_white_space(s[0]) { trim_start_ws(s.skip(1)) } else { s }
}

/// `s` without its trailing white space.
pub open spec fn trim_end_ws(s: Seq<char>) -> Seq<char>
    decreases s.len(),
{
    if s.len() > 0 && is_white_space(s.last()) { trim_end_ws(s.drop_last()) } else { s }
}

/// `s` without leading or trailing white space.
pub open spec fn trimmed(s: Seq<char>) -> Seq<char> {
    trim_end_ws(trim_start_ws(s))
}

/// Whether `c` has the Unicode White_Space property.
pub fn is_white_space_char(c: char) -> (r: bool)
    ensures
        r == is_white_space(c),
{
    ('\t' <= c && c <= '\r') || c == ' ' || c == '\u{85}' || c == '\u{a0}' || c == '\u{1680}'
        || ('\u{2000}' <= c && c <= '\u{200a}') || c == '\u{2028}' || c == '\u{2029}' || c == '\u{202f}'
        || c == '\u{205f}' || c == '\u{3000}'
}

/// `s` without leading or trailing white space.
pub fn trim_white_space(s: &str) -> (r: String)
    ensures
        r@ == trimmed(s@),
{
    let n = s.unicode_len();
    let mut start: usize = 0;
    assert(s@.skip(0) =~= s@);
    while start < n && is_white_space_char(s.get_char(start))
        invariant
            start <= n,
            n == s@.len(),
            trim_start_ws(s@) == trim_start_ws(s@.skip(start as int)),
        decreases n - start,
    {
        assert(s@.skip(start as int).skip(1) =~= s@.skip(start + 1));
        start = start + 1;
    }
    let ghost head = s@.skip(start as int);
    assert(trim_start_ws(head) == head);
    let mut end: usize = n;
    assert(head.take(head.len() as int) =~= head);
    while end > start && is_white_space_char(s.get_char(end - 1))
        invariant
            start <= end <= n,
            n == s@.len(),
            head == s@.skip(start as int),
            trim_end_ws(head) == trim_end_ws(head.take(end - start)),
        decreases end,
    {
        assert(head.take(end - start).drop_last() =~= head.take(end - 1 - start));
        assert(head.take(end - start).last() == s@[end - 1]);
        end = end - 1;
    }
    assert(trim_end_ws(head.take(end - start)) == head.take(end - start));
    let mut r = String::new();
    let mut k: usize = start;
    while k < end
        invariant
            start <= k <= end <= n,
            n == s@.len(),
            r@ == s@.subrange(start as int, k as int),
        decreases end - k,
    {
        crate::paths::push_char(&mut r, s.get_char(k));
        assert(s@.subrange(start as int, k + 1) =~= s@.subrange(start as int, k as int).push(s@[k as int]));
        k = k + 1;
    }
    assert(head.take(end - start) =~= s@.subrange(start as int, end as int));
    r
}

/// The first entry of `assets` with id `id` and kind `kind`, if any.
pub open spec fn first_with_id(assets: Seq<AssetView>, id: Seq<char>, kind: XrdsSceneAssetKind) -> Option<int>
    decreases assets.len(),
{
    if assets.len() == 0 {
        None
    } else if assets[0].0 == id && assets[0].2 == kind {
        Some(0)
    } else {
        match first_with_id(assets.skip(1), id, kind) {
            Some(i) => Some(i + 1),
            None => None,
        }
    }
}

/// The file the catalog names `asset_id` (white space around it ignored) for an asset of
/// kind `kind`: the uri of the first such entry. A blank id names nothing.
pub open spec fn resolved_uri(assets: Seq<AssetView>, asset_id: Seq<char>, kind: XrdsSceneAssetKind) -> Option<Seq<char>> {
    let id = trimmed(asset_id);
    if id.len() == 0 {
        None
    } else {
        match first_with_id(assets, id, kind) {
            Some(i) => Some(assets[i].1),
            None => None,
        }
    }
}

/// Resolve the catalog id `asset_id` of an asset of kind `kind` to its file.
pub fn resolve_asset_uri(assets: &[XrdsSceneAsset], asset_id: &str, kind: XrdsSceneAssetKind) -> (r: Option<String>)
    ensures
        name_of(r) == resolved_uri(assets_view(assets@), asset_id@, kind),
{
    let id = trim_white_space(asset_id);
    if id.unicode_len() == 0 {
        return None;
    }
    let ghost av = assets_view(assets@);
    let mut i: usize = 0;
    assert(av.skip(0) =~= av);
    while i < assets.len()
        invariant
            i <= assets@.len(),
            av == assets_view(assets@),
            id@ == trimmed(asset_id@),
            id@.len() > 0,
            first_with_id(av, id@, kind) == (match first_with_id(av.skip(i as int), id@, kind) {
                Some(j) => Some(j + i),
                None => None::<int>,
            }),
        decreases assets.len() - i,
    {
        if str_eq(assets[i].id.as_str(), id.as_str()) && assets[i].kind == kind {
            assert(av.skip(i as int)[0] == av[i as int]);
            assert(av[i as int] == asset_view(assets@[i as int]));
            assert(first_with_id(av.skip(i as int), id@, kind) == Some(0int));
            assert(first_with_id(av, id@, kind) == Some(i as int));
            let uri = assets[i].uri.clone();
            assert(uri@ == av[i as int].1);
            return Some(uri);
        }
        assert(av.skip(i as int)[0] == av[i as int]);
        assert(av.skip(i as int).skip(1) =~= av.skip(i + 1));
        i = i + 1;
    }
    assert(av.skip(assets.len() as int) =~= Seq::<AssetView>::empty());
    None
}

/// An optional string by value.
pub open spec fn name_of(s: Option<String>) -> Option<Seq<char>> {
    match s {
        Some(v) => Some(v@),
        None => None,
    }
}

} // verus!
