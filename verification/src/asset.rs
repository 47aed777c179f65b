use crate::checksum::{classify_spec, strip_spec, ChecksumType};
use vstd::prelude::*;
use vstd::seq_lib::group_filter_ensures;
use vstd::seq_lib::group_to_multiset_ensures;

verus! {

/// An uploaded file of a release: its name and where to download it from.
#[derive(Debug)]
pub struct AssetDto {
    name: String,
    download_url: String,
}

/// The mathematical content of an uploaded-file record.
pub ghost struct AssetDtoV {
    pub name: Seq<char>,
    pub download_url: Seq<char>,
}

impl View for AssetDto {
    type V = AssetDtoV;

    closed spec fn view(&self) -> AssetDtoV {
        AssetDtoV { name: self.name@, download_url: self.download_url@ }
    }
}

impl Clone for AssetDto {
    fn clone(&self) -> (r: Self)
        ensures
            r == *self,
    {
        AssetDto { name: self.name.clone(), download_url: self.download_url.clone() }
    }
}

impl AssetDto {
    pub fn new(name: String, download_url: String) -> (r: AssetDto)
        ensures
            r@.name == name@,
            r@.download_url == download_url@,
    {
        AssetDto { name, download_url }
    }

    pub fn name(&self) -> (r: String)
        ensures
            r@ == self@.name,
    {
        self.name.clone()
    }

    pub fn download_url(&self) -> (r: String)
        ensures
            r@ == self@.download_url,
    {
        self.download_url.clone()
    }
}

/// A primary release file together with the checksum sidecar that was
/// uploaded beside it, when one was.
#[derive(Debug)]
pub struct Asset {
    asset: AssetDto,
    checksum: Option<(ChecksumType, AssetDto)>,
}

/// The mathematical content of an artifact.
pub ghost struct AssetV {
    pub primary: AssetDtoV,
    pub checksum: Option<(ChecksumType, AssetDtoV)>,
}

impl View for Asset {
    type V = AssetV;

    closed spec fn view(&self) -> AssetV {
        AssetV {
            primary: self.asset@,
            checksum: match self.checksum {
                Some((kind, dto)) => Some((kind, dto@)),
                None => None,
            },
        }
    }
}

impl Asset {
    /// The primary file's name.
    pub fn name(&self) -> (r: String)
        ensures
            r@ == self@.primary.name,
    {
        self.asset.name()
    }

    /// The primary file's download URL.
    pub fn download_url(&self) -> (r: String)
        ensures
            r@ == self@.primary.download_url,
    {
        self.asset.download_url()
    }

    /// The checksum sidecar paired with this artifact, if any.
    pub fn checksum(&self) -> (r: &Option<(ChecksumType, AssetDto)>)
        ensures
            match *r {
                Some((kind, dto)) => self@.checksum == Some((kind, dto@)),
                None => self@.checksum is None,
            },
    {
        &self.checksum
    }
}

impl Clone for Asset {
    fn clone(&self) -> (r: Self)
        ensures
            r == *self,
    {
        Asset {
            asset: self.asset.clone(),
            checksum: match &self.checksum {
                Some((kind, dto)) => Some((*kind, dto.clone())),
                None => None,
            },
        }
    }
}

/// The views of the records in a sequence.
pub open spec fn dtos_view(s: Seq<AssetDto>) -> Seq<AssetDtoV> {
    s.map_values(|d: AssetDto| d@)
}

/// The views of the artifacts in a sequence.
pub open spec fn assets_view(s: Seq<Asset>) -> Seq<AssetV> {
    s.map_values(|a: Asset| a@)
}

/// The primary file of each artifact in a sequence.
pub open spec fn primaries_part(rv: Seq<AssetV>) -> Seq<AssetDtoV> {
    rv.map_values(|a: AssetV| a.primary)
}

/// True of a file whose name marks no checksum sidecar: a candidate primary
/// artifact.
pub open spec fn is_primary(f: AssetDtoV) -> bool {
    classify_spec(f.name) is None
}

/// True of a file whose name marks it as a checksum sidecar.
pub open spec fn is_sidecar(f: AssetDtoV) -> bool {
    classify_spec(f.name) is Some
}

/// The candidate primary artifacts of a file list, in their order of arrival.
pub open spec fn primaries_of(dv: Seq<AssetDtoV>) -> Seq<AssetDtoV> {
    dv.filter(|d: AssetDtoV| is_primary(d))
}

/// The checksum sidecar files of a file list, in their order of arrival.
pub open spec fn sidecars_of(dv: Seq<AssetDtoV>) -> Seq<AssetDtoV> {
    dv.filter(|d: AssetDtoV| is_sidecar(d))
}

/// True when `f` is a checksum sidecar of `kind` describing a file named
/// `base`.
pub open spec fn is_sidecar_for(f: AssetDtoV, base: Seq<char>, kind: ChecksumType) -> bool {
    classify_spec(f.name) == Some(kind) && strip_spec(f.name, kind) == base
}

/// True when the file list holds a sidecar of `kind` for a file named `base`.
pub open spec fn has_sidecar(files: Seq<AssetDtoV>, base: Seq<char>, kind: ChecksumType) -> bool {
    exists|i: int| 0 <= i < files.len() && is_sidecar_for(#[trigger] files[i], base, kind)
}

/// The index of the first sidecar of `kind` for `base` in the unconsumed
/// pool, if the pool still holds one.
pub open spec fn first_sidecar(pool: Seq<AssetDtoV>, base: Seq<char>, kind: ChecksumType) -> Option<
    int,
>
    decreases pool.len(),
{
    if pool.len() == 0 {
        None
    } else if is_sidecar_for(pool[0], base, kind) {
        Some(0)
    } else {
        match first_sidecar(pool.drop_first(), base, kind) {
            Some(i) => Some(i + 1),
            None => None,
        }
    }
}

/// The sidecar the preference rule selects for `base` from the unconsumed
/// pool: the first SHA-256 sidecar, else the first SHA-1 sidecar.
pub open spec fn pick_sidecar(pool: Seq<AssetDtoV>, base: Seq<char>) -> Option<int> {
    match first_sidecar(pool, base, ChecksumType::Sha256) {
        Some(i) => Some(i),
        None => first_sidecar(pool, base, ChecksumType::Sha1),
    }
}

/// The artifacts pairing yields: each primary, in order, takes the sidecar
/// the preference rule selects for its name out of the pool, and a consumed
/// sidecar is removed from further consideration — it pairs with no later
/// primary. Sidecars left in the pool at the end are silently dropped.
pub open spec fn pair_primaries(ps: Seq<AssetDtoV>, pool: Seq<AssetDtoV>) -> Seq<AssetV>
    decreases ps.len(),
{
    if ps.len() == 0 {
        Seq::empty()
    } else {
        match pick_sidecar(pool, ps[0].name) {
            Some(i) => seq![
                AssetV {
                    primary: ps[0],
                    checksum: Some((classify_spec(pool[i].name).unwrap(), pool[i])),
                },
            ] + pair_primaries(ps.drop_first(), pool.remove(i)),
            None => seq![AssetV { primary: ps[0], checksum: None }] + pair_primaries(
                ps.drop_first(),
                pool,
            ),
        }
    }
}

/// A paired sidecar is named after its primary file, with the kind's suffix
/// appended.
pub open spec fn asset_wf(a: AssetV) -> bool {
    match a.checksum {
        Some((kind, c)) => c.name == a.primary.name + kind.spec_suffix(),
        None => true,
    }
}

/// The membership-level characterization of one artifact against the full
/// file list: its sidecar, if any, is a file of the list that describes its
/// primary, a SHA-1 sidecar is attached only when the list holds no SHA-256
/// sidecar, and an unpaired artifact truly had no sidecar of either kind.
/// Pairing satisfies this for every artifact when no two files share a name
/// (see [`lemma_pairing_post_distinct`]); with repeated names, consumption
/// lets a later same-named primary take only what its predecessors left.
pub open spec fn pairing_entry_ok(dv: Seq<AssetDtoV>, a: AssetV) -> bool {
    match a.checksum {
        Some((kind, c)) => {
            &&& dv.contains(c)
            &&& is_sidecar_for(c, a.primary.name, kind)
            &&& (kind == ChecksumType::Sha1 ==> !has_sidecar(
                dv,
                a.primary.name,
                ChecksumType::Sha256,
            ))
        },
        None => {
            &&& !has_sidecar(dv, a.primary.name, ChecksumType::Sha256)
            &&& !has_sidecar(dv, a.primary.name, ChecksumType::Sha1)
        },
    }
}

/// The membership-level characterization of a whole pairing: the artifacts
/// are exactly the non-sidecar files, in their order of arrival, and each
/// satisfies [`pairing_entry_ok`].
pub open spec fn pairing_post(dv: Seq<AssetDtoV>, rv: Seq<AssetV>) -> bool {
    &&& primaries_part(rv) == primaries_of(dv)
    &&& forall|i: int| 0 <= i < rv.len() ==> pairing_entry_ok(dv, #[trigger] rv[i])
}

/// True when no two files of the list share a name.
pub open spec fn distinct_names(s: Seq<AssetDtoV>) -> bool {
    forall|i: int, j: int|
        0 <= i < j < s.len() ==> (#[trigger] s[i]).name != (#[trigger] s[j]).name
}

/// True when a stored sidecar entry records the base name and kind its file's
/// name denotes.
spec fn entry_wf(e: (String, ChecksumType, AssetDto)) -> bool {
    classify_spec(e.2@.name) == Some(e.1) && strip_spec(e.2@.name, e.1) == e.0@
}

/// The sidecar file of each stored entry.
spec fn entry_dtos(es: Seq<(String, ChecksumType, AssetDto)>) -> Seq<AssetDtoV> {
    es.map_values(|e: (String, ChecksumType, AssetDto)| e.2@)
}

/// Finds the first unconsumed sidecar entry recorded for this base name and
/// kind.
fn find_entry(es: &Vec<(String, ChecksumType, AssetDto)>, base: &String, kind: ChecksumType) -> (r:
    Option<usize>)
    ensures
        match r {
            Some(t) => t < es@.len() && es@[t as int].0@ == base@ && es@[t as int].1 == kind
                && forall|u: int|
                0 <= u < t ==> !((#[trigger] es@[u]).0@ == base@ && es@[u].1 == kind),
            None => forall|u: int|
                0 <= u < es@.len() ==> !((#[trigger] es@[u]).0@ == base@ && es@[u].1 == kind),
        },
{
    let n = es.len();
    let mut t: usize = 0;
    while t < n
        invariant
            n == es@.len(),
            t <= n,
            forall|u: int| 0 <= u < t ==> !((#[trigger] es@[u]).0@ == base@ && es@[u].1 == kind),
        decreases n - t,
    {
        if es[t].1 == kind && es[t].0 == *base {
            return Some(t);
        }
        t += 1;
    }
    None
}

/// `first_sidecar` answers the first matching pool index, and `None` only
/// when no pool element matches.
proof fn lemma_first_sidecar_char(pool: Seq<AssetDtoV>, base: Seq<char>, kind: ChecksumType)
    ensures
        match first_sidecar(pool, base, kind) {
            Some(i) => 0 <= i < pool.len() && is_sidecar_for(pool[i], base, kind) && forall|u: int|
                0 <= u < i ==> !is_sidecar_for(#[trigger] pool[u], base, kind),
            None => forall|u: int|
                0 <= u < pool.len() ==> !is_sidecar_for(#[trigger] pool[u], base, kind),
        },
    decreases pool.len(),
{
    if pool.len() > 0 && !is_sidecar_for(pool[0], base, kind) {
        let sub = pool.drop_first();
        lemma_first_sidecar_char(sub, base, kind);
        assert(forall|u: int| 0 <= u < sub.len() ==> #[trigger] sub[u] == pool[u + 1]);
        match first_sidecar(sub, base, kind) {
            Some(i) => {
                assert(first_sidecar(pool, base, kind) == Some(i + 1));
                assert(pool[i + 1] == sub[i]);
                assert forall|u: int| 0 <= u < i + 1 implies !is_sidecar_for(
                    #[trigger] pool[u],
                    base,
                    kind,
                ) by {
                    if u > 0 {
                        assert(pool[u] == sub[u - 1]);
                    }
                }
            },
            None => {
                assert forall|u: int| 0 <= u < pool.len() implies !is_sidecar_for(
                    #[trigger] pool[u],
                    base,
                    kind,
                ) by {
                    if u > 0 {
                        assert(pool[u] == sub[u - 1]);
                    }
                }
            },
        }
    }
}

proof fn lemma_first_sidecar_hit(pool: Seq<AssetDtoV>, base: Seq<char>, kind: ChecksumType, t: int)
    requires
        0 <= t < pool.len(),
        is_sidecar_for(pool[t], base, kind),
        forall|u: int| 0 <= u < t ==> !is_sidecar_for(#[trigger] pool[u], base, kind),
    ensures
        first_sidecar(pool, base, kind) == Some(t),
    decreases pool.len(),
{
    if t > 0 {
        let sub = pool.drop_first();
        assert(forall|u: int| 0 <= u < sub.len() ==> #[trigger] sub[u] == pool[u + 1]);
        lemma_first_sidecar_hit(sub, base, kind, t - 1);
    }
}

proof fn lemma_first_sidecar_miss(pool: Seq<AssetDtoV>, base: Seq<char>, kind: ChecksumType)
    requires
        forall|u: int| 0 <= u < pool.len() ==> !is_sidecar_for(#[trigger] pool[u], base, kind),
    ensures
        first_sidecar(pool, base, kind) is None,
    decreases pool.len(),
{
    if pool.len() > 0 {
        let sub = pool.drop_first();
        assert(forall|u: int| 0 <= u < sub.len() ==> #[trigger] sub[u] == pool[u + 1]);
        lemma_first_sidecar_miss(sub, base, kind);
    }
}

/// Pairing yields one artifact per primary, in order.
proof fn lemma_pair_primaries_primaries(ps: Seq<AssetDtoV>, pool: Seq<AssetDtoV>)
    ensures
        primaries_part(pair_primaries(ps, pool)) == ps,
    decreases ps.len(),
{
    if ps.len() > 0 {
        lemma_first_sidecar_char(pool, ps[0].name, ChecksumType::Sha256);
        lemma_first_sidecar_char(pool, ps[0].name, ChecksumType::Sha1);
        let sub = ps.drop_first();
        let out = pair_primaries(ps, pool);
        match pick_sidecar(pool, ps[0].name) {
            Some(i) => {
                lemma_pair_primaries_primaries(sub, pool.remove(i));
                let rest = pair_primaries(sub, pool.remove(i));
                assert forall|t: int| 0 <= t < out.len() implies primaries_part(out)[t] == ps[t] by {
                    if t > 0 {
                        assert(out[t] == rest[t - 1]);
                        assert(primaries_part(rest)[t - 1] == sub[t - 1]);
                        assert(sub[t - 1] == ps[t]);
                    }
                }
            },
            None => {
                lemma_pair_primaries_primaries(sub, pool);
                let rest = pair_primaries(sub, pool);
                assert forall|t: int| 0 <= t < out.len() implies primaries_part(out)[t] == ps[t] by {
                    if t > 0 {
                        assert(out[t] == rest[t - 1]);
                        assert(primaries_part(rest)[t - 1] == sub[t - 1]);
                        assert(sub[t - 1] == ps[t]);
                    }
                }
            },
        }
        assert(primaries_part(out) =~= ps);
    } else {
        assert(primaries_part(pair_primaries(ps, pool)) =~= ps);
    }
}

impl Asset {
    /// Pairs a release's flat file list into artifacts.
    ///
    /// Files whose names mark them as checksum sidecars are set aside; every
    /// other file becomes an artifact, in order of arrival, paired with the
    /// first still-unconsumed sidecar whose stripped name equals the
    /// artifact's name — SHA-256 preferred over SHA-1. A sidecar, once
    /// paired, is removed from further consideration, so it is attached to
    /// at most one artifact; with several primaries of the same name the
    /// earliest takes it. Sidecars describing no file of the list are
    /// silently dropped.
    pub fn assets_from_dtos(dtos: Vec<AssetDto>) -> (r: Vec<Asset>)
        ensures
            assets_view(r@) == pair_primaries(
                primaries_of(dtos_view(dtos@)),
                sidecars_of(dtos_view(dtos@)),
            ),
            primaries_part(assets_view(r@)) == primaries_of(dtos_view(dtos@)),
            forall|i: int| 0 <= i < r@.len() ==> asset_wf(#[trigger] assets_view(r@)[i]),
    {
        broadcast use group_filter_ensures;
        broadcast use Seq::lemma_filter_push;

        let ghost dv = dtos_view(dtos@);
        let mut primaries: Vec<AssetDto> = Vec::new();
        let mut sidecars: Vec<(String, ChecksumType, AssetDto)> = Vec::new();
        let n = dtos.len();
        proof {
            assert(dtos_view(primaries@) =~= primaries_of(dv.take(0)));
            assert(entry_dtos(sidecars@) =~= sidecars_of(dv.take(0)));
        }
        let mut idx: usize = 0;
        while idx < n
            invariant
                n == dtos@.len(),
                idx <= n,
                dv == dtos_view(dtos@),
                dtos_view(primaries@) == primaries_of(dv.take(idx as int)),
                entry_dtos(sidecars@) == sidecars_of(dv.take(idx as int)),
                forall|t: int| 0 <= t < sidecars@.len() ==> entry_wf(#[trigger] sidecars@[t]),
            decreases n - idx,
        {
            broadcast use group_filter_ensures;
            broadcast use Seq::lemma_filter_push;

            let ghost pre_take = dv.take(idx as int);
            let dto = dtos[idx].clone();
            let dto_name = dto.name();
            proof {
                assert(dv[idx as int] == dtos@[idx as int]@);
                assert(dv.take(idx as int + 1) =~= pre_take.push(dv[idx as int]));
            }
            match ChecksumType::from_filename(dto_name.as_str()) {
                Some(kind) => {
                    let base = kind.strip_suffix(dto_name.as_str());
                    let ghost old_entries = sidecars@;
                    sidecars.push((base, kind, dto));
                    proof {
                        assert(primaries_of(pre_take.push(dv[idx as int])) == primaries_of(
                            pre_take,
                        ));
                        assert(sidecars_of(pre_take.push(dv[idx as int])) == sidecars_of(
                            pre_take,
                        ).push(dv[idx as int]));
                        assert(entry_dtos(sidecars@) =~= sidecars_of(pre_take).push(
                            dv[idx as int],
                        ));
                        assert forall|t: int| 0 <= t < sidecars@.len() implies entry_wf(
                            #[trigger] sidecars@[t],
                        ) by {
                            if t < old_entries.len() {
                                assert(sidecars@[t] == old_entries[t]);
                            }
                        }
                    }
                },
                None => {
                    primaries.push(dto);
                    proof {
                        assert(primaries_of(pre_take.push(dv[idx as int])) == primaries_of(
                            pre_take,
                        ).push(dv[idx as int]));
                        assert(sidecars_of(pre_take.push(dv[idx as int])) == sidecars_of(
                            pre_take,
                        ));
                        assert(dtos_view(primaries@) =~= primaries_of(pre_take).push(
                            dv[idx as int],
                        ));
                    }
                },
            }
            idx += 1;
        }
        proof {
            assert(dv.take(n as int) =~= dv);
        }
        let ghost ps = primaries_of(dv);
        let ghost pool0 = sidecars_of(dv);
        let mut res: Vec<Asset> = Vec::new();
        let m = primaries.len();
        proof {
            assert(ps.skip(0) =~= ps);
            assert(assets_view(res@) + pair_primaries(ps.skip(0), entry_dtos(sidecars@))
                =~= pair_primaries(ps, pool0));
        }
        let mut i: usize = 0;
        while i < m
            invariant
                m == primaries@.len(),
                i <= m,
                dv == dtos_view(dtos@),
                ps == primaries_of(dv),
                pool0 == sidecars_of(dv),
                dtos_view(primaries@) == ps,
                forall|t: int| 0 <= t < sidecars@.len() ==> entry_wf(#[trigger] sidecars@[t]),
                res@.len() == i,
                pair_primaries(ps, pool0) == assets_view(res@) + pair_primaries(
                    ps.skip(i as int),
                    entry_dtos(sidecars@),
                ),
                forall|t: int| 0 <= t < res@.len() ==> asset_wf(#[trigger] assets_view(res@)[t]),
            decreases m - i,
        {
            let ghost pool = entry_dtos(sidecars@);
            let ghost rest = ps.skip(i as int);
            let p = primaries[i].clone();
            let ghost pview = p@;
            let p_name = p.name();
            let ghost base = pview.name;
            proof {
                assert(dtos_view(primaries@)[i as int] == primaries@[i as int]@);
                assert(rest[0] == ps[i as int]);
                assert(rest[0] == pview);
                assert(rest.drop_first() =~= ps.skip(i as int + 1));
            }
            let checksum: Option<(ChecksumType, AssetDto)> = match find_entry(
                &sidecars,
                &p_name,
                ChecksumType::Sha256,
            ) {
                Some(t) => {
                    proof {
                        assert(entry_wf(sidecars@[t as int]));
                        assert(is_sidecar_for(pool[t as int], base, ChecksumType::Sha256));
                        assert forall|u: int| 0 <= u < t implies !is_sidecar_for(
                            #[trigger] pool[u],
                            base,
                            ChecksumType::Sha256,
                        ) by {
                            assert(entry_wf(sidecars@[u]));
                            assert(pool[u] == sidecars@[u].2@);
                        }
                        lemma_first_sidecar_hit(pool, base, ChecksumType::Sha256, t as int);
                        assert(pick_sidecar(pool, base) == Some(t as int));
                    }
                    let ghost old_entries = sidecars@;
                    let e = sidecars.remove(t);
                    proof {
                        assert(entry_dtos(sidecars@) =~= entry_dtos(old_entries).remove(t as int));
                        assert forall|u: int| 0 <= u < sidecars@.len() implies entry_wf(
                            #[trigger] sidecars@[u],
                        ) by {
                            if u < t {
                                assert(sidecars@[u] == old_entries[u]);
                            } else {
                                assert(sidecars@[u] == old_entries[u + 1]);
                            }
                        }
                    }
                    Some((ChecksumType::Sha256, e.2))
                },
                None => {
                    proof {
                        assert forall|u: int| 0 <= u < pool.len() implies !is_sidecar_for(
                            #[trigger] pool[u],
                            base,
                            ChecksumType::Sha256,
                        ) by {
                            assert(entry_wf(sidecars@[u]));
                            assert(pool[u] == sidecars@[u].2@);
                        }
                        lemma_first_sidecar_miss(pool, base, ChecksumType::Sha256);
                    }
                    match find_entry(&sidecars, &p_name, ChecksumType::Sha1) {
                        Some(t) => {
                            proof {
                                assert(entry_wf(sidecars@[t as int]));
                                assert(is_sidecar_for(pool[t as int], base, ChecksumType::Sha1));
                                assert forall|u: int| 0 <= u < t implies !is_sidecar_for(
                                    #[trigger] pool[u],
                                    base,
                                    ChecksumType::Sha1,
                                ) by {
                                    assert(entry_wf(sidecars@[u]));
                                    assert(pool[u] == sidecars@[u].2@);
                                }
                                lemma_first_sidecar_hit(pool, base, ChecksumType::Sha1, t as int);
                                assert(pick_sidecar(pool, base) == Some(t as int));
                            }
                            let ghost old_entries = sidecars@;
                            let e = sidecars.remove(t);
                            proof {
                                assert(entry_dtos(sidecars@) =~= entry_dtos(old_entries).remove(
                                    t as int,
                                ));
                                assert forall|u: int| 0 <= u < sidecars@.len() implies entry_wf(
                                    #[trigger] sidecars@[u],
                                ) by {
                                    if u < t {
                                        assert(sidecars@[u] == old_entries[u]);
                                    } else {
                                        assert(sidecars@[u] == old_entries[u + 1]);
                                    }
                                }
                            }
                            Some((ChecksumType::Sha1, e.2))
                        },
                        None => {
                            proof {
                                assert forall|u: int| 0 <= u < pool.len() implies !is_sidecar_for(
                                    #[trigger] pool[u],
                                    base,
                                    ChecksumType::Sha1,
                                ) by {
                                    assert(entry_wf(sidecars@[u]));
                                    assert(pool[u] == sidecars@[u].2@);
                                }
                                lemma_first_sidecar_miss(pool, base, ChecksumType::Sha1);
                                assert(pick_sidecar(pool, base) is None);
                            }
                            None
                        },
                    }
                },
            };
            let a = Asset { asset: p, checksum };
            let ghost av = a@;
            proof {
                assert(av.primary == pview);
                match pick_sidecar(pool, base) {
                    Some(t) => {
                        assert(is_sidecar_for(pool[t], base, classify_spec(pool[t].name).unwrap()));
                        assert(av.checksum == Some(
                            (classify_spec(pool[t].name).unwrap(), pool[t]),
                        ));
                        assert(entry_dtos(sidecars@) == pool.remove(t));
                    },
                    None => {
                        assert(av.checksum is None);
                        assert(entry_dtos(sidecars@) == pool);
                    },
                }
                assert(pair_primaries(rest, pool) == seq![av] + pair_primaries(
                    rest.drop_first(),
                    entry_dtos(sidecars@),
                ));
                match av.checksum {
                    Some((k0, c0)) => {
                        crate::checksum::lemma_classify_strip(c0.name);
                        assert(strip_spec(c0.name, k0) + k0.spec_suffix() == c0.name);
                    },
                    None => {},
                }
                assert(asset_wf(av));
            }
            let ghost old_res = res@;
            res.push(a);
            proof {
                assert(assets_view(res@) =~= assets_view(old_res) + seq![av]);
                assert((assets_view(old_res) + seq![av]) + pair_primaries(
                    ps.skip(i as int + 1),
                    entry_dtos(sidecars@),
                ) =~= assets_view(old_res) + (seq![av] + pair_primaries(
                    ps.skip(i as int + 1),
                    entry_dtos(sidecars@),
                )));
                assert forall|t: int| 0 <= t < res@.len() implies asset_wf(
                    #[trigger] assets_view(res@)[t],
                ) by {
                    if t < old_res.len() {
                        assert(res@[t] == old_res[t]);
                        assert(assets_view(old_res)[t] == old_res[t]@);
                    } else {
                        assert(assets_view(res@)[t] == av);
                    }
                }
            }
            i += 1;
        }
        proof {
            assert(ps.skip(m as int).len() == 0);
            assert(pair_primaries(ps.skip(m as int), entry_dtos(sidecars@)) == Seq::<
                AssetV,
            >::empty());
            assert(assets_view(res@) + Seq::<AssetV>::empty() =~= assets_view(res@));
            lemma_pair_primaries_primaries(ps, pool0);
        }
        res
    }
}

/// An artifact's checksum pair is determined by its primary's name and the
/// membership of the file list alone: two pairings over lists holding the
/// same files agree on it, provided no two files share a name.
proof fn lemma_checksum_determined(
    dva: Seq<AssetDtoV>,
    dvb: Seq<AssetDtoV>,
    a: AssetV,
    b: AssetV,
)
    requires
        forall|x: AssetDtoV| dva.contains(x) <==> dvb.contains(x),
        distinct_names(dva),
        pairing_entry_ok(dva, a),
        pairing_entry_ok(dvb, b),
        a.primary == b.primary,
    ensures
        a.checksum == b.checksum,
{
    let base = a.primary.name;
    match (a.checksum, b.checksum) {
        (Some((ka, ca)), Some((kb, cb))) => {
            if ka != kb {
                if ka == ChecksumType::Sha1 {
                    // b carries a SHA-256 sidecar that also lives in dva,
                    // contradicting a's SHA-1 preference clause.
                    let u = choose|u: int| 0 <= u < dva.len() && dva[u] == cb;
                    assert(is_sidecar_for(dva[u], base, ChecksumType::Sha256));
                    assert(false);
                } else {
                    let u = choose|u: int| 0 <= u < dvb.len() && dvb[u] == ca;
                    assert(is_sidecar_for(dvb[u], base, ChecksumType::Sha256));
                    assert(false);
                }
            }
            crate::checksum::lemma_classify_strip(ca.name);
            crate::checksum::lemma_classify_strip(cb.name);
            assert(ca.name == base + ka.spec_suffix());
            assert(cb.name == base + kb.spec_suffix());
            assert(dva.contains(cb));
            let ia = choose|ia: int| 0 <= ia < dva.len() && dva[ia] == ca;
            let ib = choose|ib: int| 0 <= ib < dva.len() && dva[ib] == cb;
            if ia != ib {
                if ia < ib {
                    assert(dva[ia].name != dva[ib].name);
                } else {
                    assert(dva[ib].name != dva[ia].name);
                }
                assert(false);
            }
            assert(ca == cb);
        },
        (Some((ka, ca)), None) => {
            let u = choose|u: int| 0 <= u < dvb.len() && dvb[u] == ca;
            assert(is_sidecar_for(dvb[u], base, ka));
            assert(false);
        },
        (None, Some((kb, cb))) => {
            let u = choose|u: int| 0 <= u < dva.len() && dva[u] == cb;
            assert(is_sidecar_for(dva[u], base, kb));
            assert(false);
        },
        (None, None) => {},
    }
}

/// Each artifact of one pairing appears in the other, both ways, when the two
/// file lists hold the same files and no two files share a name.
proof fn lemma_pairing_subsets(
    dva: Seq<AssetDtoV>,
    dvb: Seq<AssetDtoV>,
    rva: Seq<AssetV>,
    rvb: Seq<AssetV>,
)
    requires
        forall|x: AssetDtoV| dva.contains(x) <==> dvb.contains(x),
        distinct_names(dva),
        pairing_post(dva, rva),
        pairing_post(dvb, rvb),
    ensures
        forall|y: AssetV| #[trigger] rva.contains(y) ==> rvb.contains(y),
        forall|y: AssetV| #[trigger] rvb.contains(y) ==> rva.contains(y),
{
    broadcast use group_filter_ensures;
    broadcast use Seq::lemma_filter_contains_rev;

    assert forall|y: AssetV| #[trigger] rva.contains(y) implies rvb.contains(y) by {
        lemma_pairing_one_subset(dva, dvb, rva, rvb, y);
    }
    assert forall|y: AssetV| #[trigger] rvb.contains(y) implies rva.contains(y) by {
        lemma_pairing_one_subset(dvb, dva, rvb, rva, y);
    }
}

/// One direction of [`lemma_pairing_subsets`]: an artifact `y` of the pairing
/// over `dva` also stands in the pairing over `dvb`. Name-distinctness is
/// needed only as a fact about the combined membership, so it may be supplied
/// for either list.
proof fn lemma_pairing_one_subset(
    dva: Seq<AssetDtoV>,
    dvb: Seq<AssetDtoV>,
    rva: Seq<AssetV>,
    rvb: Seq<AssetV>,
    y: AssetV,
)
    requires
        forall|x: AssetDtoV| dva.contains(x) <==> dvb.contains(x),
        distinct_names(dva) || distinct_names(dvb),
        pairing_post(dva, rva),
        pairing_post(dvb, rvb),
        rva.contains(y),
    ensures
        rvb.contains(y),
{
    broadcast use group_filter_ensures;
    broadcast use Seq::lemma_filter_contains_rev;

    let t = choose|t: int| 0 <= t < rva.len() && rva[t] == y;
    assert(primaries_part(rva)[t] == y.primary);
    assert(primaries_of(dva)[t] == y.primary);
    assert(primaries_of(dva).contains(y.primary));
    assert(is_primary(y.primary));
    assert(dva.contains(y.primary));
    assert(dvb.contains(y.primary));
    let u = choose|u: int| 0 <= u < dvb.len() && dvb[u] == y.primary;
    assert(primaries_of(dvb).contains(dvb[u]));
    let w = choose|w: int| 0 <= w < primaries_of(dvb).len() && primaries_of(dvb)[w] == y.primary;
    assert(primaries_part(rvb)[w] == y.primary);
    let b = rvb[w];
    assert(pairing_entry_ok(dvb, b));
    assert(pairing_entry_ok(dva, rva[t]));
    if distinct_names(dva) {
        lemma_checksum_determined(dva, dvb, y, b);
    } else {
        lemma_checksum_determined(dvb, dva, b, y);
    }
    assert(y == b);
    assert(rvb.contains(rvb[w]));
}

/// A list with pairwise-distinct names has pairwise-distinct primaries.
proof fn lemma_primaries_distinct(dv: Seq<AssetDtoV>)
    requires
        distinct_names(dv),
    ensures
        distinct_names(primaries_of(dv)),
    decreases dv.len(),
{
    broadcast use group_filter_ensures;
    broadcast use Seq::lemma_filter_push;
    broadcast use Seq::lemma_filter_contains_rev;

    if dv.len() > 0 {
        let sub = dv.drop_last();
        let last = dv.last();
        assert(dv =~= sub.push(last));
        assert forall|i: int, j: int| 0 <= i < j < sub.len() implies (#[trigger] sub[i]).name != (
        #[trigger] sub[j]).name by {
            assert(sub[i] == dv[i]);
            assert(sub[j] == dv[j]);
        }
        lemma_primaries_distinct(sub);
        assert(primaries_of(dv) == primaries_of(sub.push(last)));
        if is_primary(last) {
            let p = primaries_of(sub);
            assert(primaries_of(dv) == p.push(last));
            assert forall|i: int, j: int| 0 <= i < j < p.push(last).len() implies (#[trigger] p.push(
                last,
            )[i]).name != (#[trigger] p.push(last)[j]).name by {
                if j < p.len() {
                    assert(p.push(last)[i] == p[i]);
                    assert(p.push(last)[j] == p[j]);
                    assert(distinct_names(p));
                } else {
                    assert(p.push(last)[j] == last);
                    assert(p.push(last)[i] == p[i]);
                    assert(p.contains(p[i]));
                    assert(sub.contains(p[i]));
                    let w = choose|w: int| 0 <= w < sub.len() && sub[w] == p[i];
                    assert(dv[w] == p[i]);
                    assert(dv[w].name != dv[dv.len() - 1].name);
                }
            }
        }
    }
}

/// When no two remaining primaries share a name and the pool still holds, for
/// each of their names, every sidecar the full list holds, each artifact the
/// pairing yields satisfies the membership-level characterization.
proof fn lemma_pair_primaries_entry_ok(
    dv: Seq<AssetDtoV>,
    ps: Seq<AssetDtoV>,
    pool: Seq<AssetDtoV>,
)
    requires
        forall|x: AssetDtoV| pool.contains(x) ==> dv.contains(x),
        distinct_names(ps),
        forall|u: int, k: ChecksumType|
            0 <= u < ps.len() && #[trigger] has_sidecar(dv, ps[u].name, k) ==> has_sidecar(
                pool,
                ps[u].name,
                k,
            ),
    ensures
        forall|t: int|
            0 <= t < pair_primaries(ps, pool).len() ==> pairing_entry_ok(
                dv,
                #[trigger] pair_primaries(ps, pool)[t],
            ),
    decreases ps.len(),
{
    if ps.len() == 0 {
        return ;
    }
    let base = ps[0].name;
    let ps2 = ps.drop_first();
    assert forall|i: int, j: int| 0 <= i < j < ps2.len() implies (#[trigger] ps2[i]).name != (
    #[trigger] ps2[j]).name by {
        assert(ps2[i] == ps[i + 1]);
        assert(ps2[j] == ps[j + 1]);
    }
    lemma_first_sidecar_char(pool, base, ChecksumType::Sha256);
    lemma_first_sidecar_char(pool, base, ChecksumType::Sha1);
    match pick_sidecar(pool, base) {
        Some(i) => {
            let c = pool[i];
            let k = classify_spec(c.name).unwrap();
            assert(is_sidecar_for(c, base, k));
            assert(pool.contains(c));
            assert(dv.contains(c));
            if k == ChecksumType::Sha1 {
                if has_sidecar(dv, base, ChecksumType::Sha256) {
                    assert(has_sidecar(pool, base, ChecksumType::Sha256));
                    let w = choose|w: int|
                        0 <= w < pool.len() && is_sidecar_for(
                            #[trigger] pool[w],
                            base,
                            ChecksumType::Sha256,
                        );
                    assert(false);
                }
            }
            let av = AssetV { primary: ps[0], checksum: Some((k, c)) };
            assert(pairing_entry_ok(dv, av));
            let pool2 = pool.remove(i);
            pool.remove_ensures(i);
            assert forall|x: AssetDtoV| pool2.contains(x) implies dv.contains(x) by {
                let w = choose|w: int| 0 <= w < pool2.len() && pool2[w] == x;
                if w < i {
                    assert(pool[w] == x);
                } else {
                    assert(pool[w + 1] == x);
                }
                assert(pool.contains(x));
            }
            assert forall|u: int, k2: ChecksumType|
                0 <= u < ps2.len() && #[trigger] has_sidecar(dv, ps2[u].name, k2) implies has_sidecar(
                pool2,
                ps2[u].name,
                k2,
            ) by {
                let b2 = ps2[u].name;
                assert(ps2[u] == ps[u + 1]);
                assert(has_sidecar(dv, ps[u + 1].name, k2));
                assert(has_sidecar(pool, b2, k2));
                let w = choose|w: int|
                    0 <= w < pool.len() && is_sidecar_for(#[trigger] pool[w], b2, k2);
                if w == i {
                    // the consumed sidecar describes ps[0]'s name, not b2
                    assert(classify_spec(c.name) == Some(k2));
                    assert(k2 == k);
                    assert(b2 == base);
                    assert(ps[0].name != ps[u + 1].name);
                    assert(false);
                }
                if w < i {
                    assert(pool2[w] == pool[w]);
                    assert(is_sidecar_for(pool2[w], b2, k2));
                } else {
                    assert(pool2[w - 1] == pool[w]);
                    assert(is_sidecar_for(pool2[w - 1], b2, k2));
                }
            }
            lemma_pair_primaries_entry_ok(dv, ps2, pool2);
            let out = pair_primaries(ps, pool);
            assert(out == seq![av] + pair_primaries(ps2, pool2));
            assert forall|t: int| 0 <= t < out.len() implies pairing_entry_ok(
                dv,
                #[trigger] out[t],
            ) by {
                if t == 0 {
                    assert(out[0] == av);
                } else {
                    assert(out[t] == pair_primaries(ps2, pool2)[t - 1]);
                }
            }
        },
        None => {
            if has_sidecar(dv, base, ChecksumType::Sha256) {
                assert(has_sidecar(pool, base, ChecksumType::Sha256));
                let w = choose|w: int|
                    0 <= w < pool.len() && is_sidecar_for(
                        #[trigger] pool[w],
                        base,
                        ChecksumType::Sha256,
                    );
                assert(false);
            }
            if has_sidecar(dv, base, ChecksumType::Sha1) {
                assert(has_sidecar(pool, base, ChecksumType::Sha1));
                let w = choose|w: int|
                    0 <= w < pool.len() && is_sidecar_for(
                        #[trigger] pool[w],
                        base,
                        ChecksumType::Sha1,
                    );
                assert(false);
            }
            let av = AssetV { primary: ps[0], checksum: None };
            assert(pairing_entry_ok(dv, av));
            assert forall|u: int, k2: ChecksumType|
                0 <= u < ps2.len() && #[trigger] has_sidecar(dv, ps2[u].name, k2) implies has_sidecar(
                pool,
                ps2[u].name,
                k2,
            ) by {
                assert(ps2[u] == ps[u + 1]);
                assert(has_sidecar(dv, ps[u + 1].name, k2));
            }
            lemma_pair_primaries_entry_ok(dv, ps2, pool);
            let out = pair_primaries(ps, pool);
            assert(out == seq![av] + pair_primaries(ps2, pool));
            assert forall|t: int| 0 <= t < out.len() implies pairing_entry_ok(
                dv,
                #[trigger] out[t],
            ) by {
                if t == 0 {
                    assert(out[0] == av);
                } else {
                    assert(out[t] == pair_primaries(ps2, pool)[t - 1]);
                }
            }
        },
    }
}

/// When no two files of the list share a name, the pairing — primaries in
/// order, each taking the preferred unconsumed sidecar — satisfies the
/// membership-level characterization [`pairing_post`] over the full list.
pub proof fn lemma_pairing_post_distinct(dv: Seq<AssetDtoV>)
    requires
        distinct_names(dv),
    ensures
        pairing_post(dv, pair_primaries(primaries_of(dv), sidecars_of(dv))),
{
    broadcast use group_filter_ensures;
    broadcast use Seq::lemma_filter_contains_rev;

    let ps = primaries_of(dv);
    let pool = sidecars_of(dv);
    lemma_pair_primaries_primaries(ps, pool);
    lemma_primaries_distinct(dv);
    assert forall|x: AssetDtoV| pool.contains(x) implies dv.contains(x) by {}
    assert forall|u: int, k: ChecksumType|
        0 <= u < ps.len() && #[trigger] has_sidecar(dv, ps[u].name, k) implies has_sidecar(
        pool,
        ps[u].name,
        k,
    ) by {
        let w = choose|w: int| 0 <= w < dv.len() && is_sidecar_for(#[trigger] dv[w], ps[u].name, k);
        assert(is_sidecar(dv[w]));
        assert(pool.contains(dv[w]));
        let v = choose|v: int| 0 <= v < pool.len() && pool[v] == dv[w];
        assert(is_sidecar_for(pool[v], ps[u].name, k));
    }
    lemma_pair_primaries_entry_ok(dv, ps, pool);
}

/// A permutation of a list with pairwise-distinct names has pairwise-distinct
/// names itself.
proof fn lemma_distinct_names_permutation(dv1: Seq<AssetDtoV>, dv2: Seq<AssetDtoV>)
    requires
        dv1.to_multiset() == dv2.to_multiset(),
        distinct_names(dv1),
    ensures
        distinct_names(dv2),
{
    broadcast use group_to_multiset_ensures;

    assert forall|i: int, j: int| 0 <= i < j < dv1.len() implies dv1[i] != dv1[j] by {
        assert(dv1[i].name != dv1[j].name);
    }
    dv1.lemma_multiset_has_no_duplicates();
    dv2.lemma_multiset_has_no_duplicates_conv();
    assert forall|i: int, j: int| 0 <= i < j < dv2.len() implies (#[trigger] dv2[i]).name != (
    #[trigger] dv2[j]).name by {
        if dv2[i].name == dv2[j].name {
            assert(dv2[i] != dv2[j]);
            assert(dv2.contains(dv2[i]));
            assert(dv2.contains(dv2[j]));
            assert(dv2.to_multiset().count(dv2[i]) > 0);
            assert(dv2.to_multiset().count(dv2[j]) > 0);
            assert(dv1.to_multiset().count(dv2[i]) > 0);
            assert(dv1.to_multiset().count(dv2[j]) > 0);
            assert(dv1.contains(dv2[i]));
            assert(dv1.contains(dv2[j]));
            let a = choose|a: int| 0 <= a < dv1.len() && dv1[a] == dv2[i];
            let b = choose|b: int| 0 <= b < dv1.len() && dv1[b] == dv2[j];
            if a < b {
                assert(dv1[a].name != dv1[b].name);
            } else {
                assert(dv1[b].name != dv1[a].name);
            }
            assert(false);
        }
    }
}

/// Pairing does not depend on the order of the uploaded files: two file
/// lists holding the same files, in any permutation, and free of repeated
/// names yield the same set of (primary, checksum-pair) associations.
pub proof fn lemma_pairing_order_independent(dv1: Seq<AssetDtoV>, dv2: Seq<AssetDtoV>)
    requires
        dv1.to_multiset() == dv2.to_multiset(),
        distinct_names(dv1),
    ensures
        pair_primaries(primaries_of(dv1), sidecars_of(dv1)).to_set() == pair_primaries(
            primaries_of(dv2),
            sidecars_of(dv2),
        ).to_set(),
{
    broadcast use group_to_multiset_ensures;

    let rv1 = pair_primaries(primaries_of(dv1), sidecars_of(dv1));
    let rv2 = pair_primaries(primaries_of(dv2), sidecars_of(dv2));
    lemma_distinct_names_permutation(dv1, dv2);
    assert forall|x: AssetDtoV| dv1.contains(x) <==> dv2.contains(x) by {
        assert(dv1.contains(x) <==> dv1.to_multiset().count(x) > 0);
        assert(dv2.contains(x) <==> dv2.to_multiset().count(x) > 0);
    }
    lemma_pairing_post_distinct(dv1);
    lemma_pairing_post_distinct(dv2);
    lemma_pairing_subsets(dv1, dv2, rv1, rv2);
    assert(rv1.to_set() =~= rv2.to_set());
}

} // verus!
