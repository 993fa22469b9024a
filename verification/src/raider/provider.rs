//! The model catalog the front end offers: the providers the server lists and
//! their models, in the order the model picker shows them, and the model picked
//! when the one in use is no longer offered.
use vstd::prelude::*;
use crate::text::{ascii_lower, chars_of, lower_char, to_ascii_lowercase, sort_texts, str_eq, text_less, text_lt, texts_sorted, views};

verus! {

/// A model as the server lists it: its variants are the names of the variants
/// it offers, and its context limit the one it declares, if any.
pub struct WireModel {
    pub id: String,
    pub name: String,
    pub status: Option<String>,
    pub variants: Vec<String>,
    pub context_limit: Option<u64>,
}

/// A provider as the server lists it, with its models in no particular order.
pub struct WireProvider {
    pub id: String,
    pub name: String,
    pub models: Vec<WireModel>,
}

/// The server's provider list: the providers, and each provider's default
/// model as (provider id, model id) pairs.
pub struct ProviderList {
    pub all: Vec<WireProvider>,
    pub default: Vec<(String, String)>,
}

/// A model as the picker offers it: no name where the server gave an empty one,
/// the variants in order, and a context limit of 0 where none was declared.
pub struct CatalogModel {
    pub id: String,
    pub name: Option<String>,
    pub variants: Vec<String>,
    pub context_limit: u64,
}

/// A provider as the picker offers it.
pub struct CatalogProvider {
    pub id: String,
    pub name: Option<String>,
    pub models: Vec<CatalogModel>,
}

/// What the model picker offers.
pub struct ModelCatalog {
    pub providers: Vec<CatalogProvider>,
}

/// A model named by its provider and its own id.
pub struct ModelRef {
    pub provider_id: String,
    pub model_id: String,
}

/// What a refresh of the provider list asks of the front end.
pub enum ProviderAction {
    SetCatalog(ModelCatalog),
    SetCurrentModel(Option<ModelRef>),
}

/// The server's own provider comes first.
pub open spec fn is_house_provider(p: WireProvider) -> bool {
    p.id@ == "opencode"@
}

/// Whether provider `a` is listed before `b`: the server's own provider first,
/// then by name, letters compared without case.
pub open spec fn provider_lt(a: WireProvider, b: WireProvider) -> bool {
    (is_house_provider(a) && !is_house_provider(b))
        || (is_house_provider(a) == is_house_provider(b) && text_lt(ascii_lower(a.name@), ascii_lower(b.name@)))
}

/// Whether model `a` is listed before `b`: by name, letters compared without
/// case, then by id.
pub open spec fn model_lt(a: WireModel, b: WireModel) -> bool {
    text_lt(ascii_lower(a.name@), ascii_lower(b.name@))
        || (ascii_lower(a.name@) == ascii_lower(b.name@) && text_lt(a.id@, b.id@))
}

/// The position among the first `k` of `idx` of the first one that nothing
/// before it beats and that beats everything after it up to `k`, under `lt`:
/// the first least one.
pub open spec fn min_pos(idx: Seq<usize>, lt: spec_fn(usize, usize) -> bool, k: int) -> int
    decreases k,
{
    if k <= 1 {
        0
    } else {
        let b = min_pos(idx, lt, k - 1);
        if lt(idx[k - 1], idx[b]) {
            k - 1
        } else {
            b
        }
    }
}

/// `idx` sorted by `lt` keeping the order of equals: the first least one, then
/// the rest sorted the same way.
pub open spec fn stable_sorted(idx: Seq<usize>, lt: spec_fn(usize, usize) -> bool) -> Seq<usize>
    decreases idx.len(),
{
    if idx.len() == 0 {
        Seq::empty()
    } else {
        let p = min_pos(idx, lt, idx.len() as int);
        proof {
            lemma_min_pos_range(idx, lt, idx.len() as int);
        }
        seq![idx[p]] + stable_sorted(idx.remove(p), lt)
    }
}

pub proof fn lemma_min_pos_range(idx: Seq<usize>, lt: spec_fn(usize, usize) -> bool, k: int)
    requires
        1 <= k,
    ensures
        0 <= min_pos(idx, lt, k) < k,
    decreases k,
{
    if k > 1 {
        lemma_min_pos_range(idx, lt, k - 1);
    }
}

/// The positions `0..n`.
pub open spec fn positions(n: nat) -> Seq<usize> {
    Seq::new(n, |i: int| i as usize)
}

/// Things the picker lists in an order of their own.
pub trait Ranked: Sized {
    /// Whether `self` is listed before `other`.
    spec fn ranks_before(self, other: Self) -> bool;

    /// Whether `self` is listed before `other` (see `ranks_before`).
    fn before(&self, other: &Self) -> (r: bool)
        ensures
            r == self.ranks_before(*other),
    ;
}

impl Ranked for WireProvider {
    open spec fn ranks_before(self, other: Self) -> bool {
        provider_lt(self, other)
    }

    fn before(&self, other: &Self) -> (r: bool) {
        provider_before(self, other)
    }
}

impl Ranked for WireModel {
    open spec fn ranks_before(self, other: Self) -> bool {
        model_lt(self, other)
    }

    fn before(&self, other: &Self) -> (r: bool) {
        model_before(self, other)
    }
}

/// The listing order on positions in `xs`.
pub open spec fn rank_order<T: Ranked>(xs: Seq<T>) -> spec_fn(usize, usize) -> bool {
    |a: usize, b: usize| xs[a as int].ranks_before(xs[b as int])
}

/// The positions `start` in `xs` sorted by the listing order, equals keeping
/// their order (see `stable_sorted`).
fn stable_sort_positions<T: Ranked>(xs: &Vec<T>, start: Vec<usize>) -> (r: Vec<usize>)
    requires
        forall|k: int| 0 <= k < start@.len() ==> start@[k] < xs@.len(),
    ensures
        r@ == stable_sorted(start@, rank_order(xs@)),
{
    let ghost lt = rank_order(xs@);
    let mut rest = start;
    let mut out: Vec<usize> = Vec::new();
    proof {
        assert(out@ + stable_sorted(rest@, lt) =~= stable_sorted(start@, lt));
    }
    while rest.len() > 0
        invariant
            lt == rank_order(xs@),
            forall|k: int| 0 <= k < rest@.len() ==> rest@[k] < xs@.len(),
            out@ + stable_sorted(rest@, lt) == stable_sorted(start@, lt),
        decreases rest@.len(),
    {
        let mut best: usize = 0;
        let mut k: usize = 1;
        while k < rest.len()
            invariant
                lt == rank_order(xs@),
                forall|q: int| 0 <= q < rest@.len() ==> rest@[q] < xs@.len(),
                1 <= k <= rest@.len(),
                best == min_pos(rest@, lt, k as int),
                best < k,
            decreases rest@.len() - k,
        {
            if xs[rest[k]].before(&xs[rest[best]]) {
                best = k;
            }
            k += 1;
        }
        let ghost before = rest@;
        proof {
            lemma_min_pos_range(before, lt, before.len() as int);
            assert(stable_sorted(before, lt) == seq![before[best as int]] + stable_sorted(before.remove(best as int), lt));
        }
        let x = rest.remove(best);
        out.push(x);
        proof {
            assert(rest@ == before.remove(best as int));
            assert(out@ + stable_sorted(rest@, lt) =~= stable_sorted(start@, lt));
            assert forall|q: int| 0 <= q < rest@.len() implies rest@[q] < xs@.len() by {
                if q < best {
                    assert(rest@[q] == before[q]);
                } else {
                    assert(rest@[q] == before[q + 1]);
                }
            }
        }
    }
    proof {
        assert(stable_sorted(rest@, lt) =~= Seq::<usize>::empty());
        assert(out@ =~= stable_sorted(start@, lt));
    }
    out
}

fn lowered(s: &String) -> (r: Vec<char>)
    ensures
        r@ == ascii_lower(s@),
{
    chars_of(to_ascii_lowercase(s.as_str()).as_str())
}

fn provider_before(a: &WireProvider, b: &WireProvider) -> (r: bool)
    ensures
        r == provider_lt(*a, *b),
{
    let a_house = str_eq(a.id.as_str(), "opencode");
    let b_house = str_eq(b.id.as_str(), "opencode");
    if a_house != b_house {
        a_house
    } else {
        text_less(&lowered(&a.name), &lowered(&b.name))
    }
}

fn model_before(a: &WireModel, b: &WireModel) -> (r: bool)
    ensures
        r == model_lt(*a, *b),
{
    let an = lowered(&a.name);
    let bn = lowered(&b.name);
    if text_less(&an, &bn) {
        true
    } else if crate::text::chars_eq(&an, &bn) {
        text_less(&chars_of(a.id.as_str()), &chars_of(b.id.as_str()))
    } else {
        false
    }
}

/// Whether a model is marked deprecated.
pub open spec fn is_deprecated(m: WireModel) -> bool {
    m.status matches Some(st) && st@ == "deprecated"@
}

/// The positions of the models among the first `k` that are not deprecated,
/// in order.
pub open spec fn kept_from(ms: Seq<WireModel>, k: int) -> Seq<usize>
    decreases k,
{
    if k <= 0 {
        Seq::empty()
    } else if is_deprecated(ms[k - 1]) {
        kept_from(ms, k - 1)
    } else {
        kept_from(ms, k - 1).push((k - 1) as usize)
    }
}

/// The positions of a provider's models the picker lists, in the order it
/// lists them: deprecated ones left out, the rest by name and id.
pub open spec fn model_listing(ms: Seq<WireModel>) -> Seq<usize> {
    stable_sorted(kept_from(ms, ms.len() as int), rank_order(ms))
}

/// The positions of the providers in the order the picker lists them.
pub open spec fn provider_listing(ps: Seq<WireProvider>) -> Seq<usize> {
    stable_sorted(positions(ps.len()), rank_order(ps))
}

/// A name, or none where it is empty.
pub open spec fn name_or_none(n: Seq<char>) -> Option<Seq<char>> {
    if n.len() == 0 {
        None
    } else {
        Some(n)
    }
}

/// An optional string as text.
pub open spec fn opt_text(o: Option<String>) -> Option<Seq<char>> {
    match o {
        Some(s) => Some(s@),
        None => None,
    }
}

/// Whether `c` is how the picker lists the model `m`.
pub open spec fn lists_model(c: CatalogModel, m: WireModel) -> bool {
    &&& c.id@ == m.id@
    &&& opt_text(c.name) == name_or_none(m.name@)
    &&& texts_sorted(views(c.variants@))
    &&& views(c.variants@).to_multiset() == views(m.variants@).to_multiset()
    &&& c.context_limit == match m.context_limit {
        Some(l) => l,
        None => 0,
    }
}

/// Whether `c` is how the picker lists the provider `p`.
pub open spec fn lists_provider(c: CatalogProvider, p: WireProvider) -> bool {
    let order = model_listing(p.models@);
    &&& c.id@ == p.id@
    &&& opt_text(c.name) == name_or_none(p.name@)
    &&& c.models@.len() == order.len()
    &&& forall|k: int| 0 <= k < order.len() ==> lists_model(#[trigger] c.models@[k], p.models@[order[k] as int])
}

/// Whether `c` is the catalog of the provider list `list`.
pub open spec fn catalog_of(c: ModelCatalog, list: ProviderList) -> bool {
    let order = provider_listing(list.all@);
    &&& c.providers@.len() == order.len()
    &&& forall|k: int| 0 <= k < order.len() ==> lists_provider(#[trigger] c.providers@[k], list.all@[order[k] as int])
}

proof fn lemma_kept_bound(ms: Seq<WireModel>, k: int)
    requires
        0 <= k <= ms.len(),
        ms.len() <= usize::MAX,
    ensures
        forall|q: int| 0 <= q < kept_from(ms, k).len() ==> kept_from(ms, k)[q] < k,
    decreases k,
{
    if k > 0 {
        lemma_kept_bound(ms, k - 1);
        let prev = kept_from(ms, k - 1);
        if !is_deprecated(ms[k - 1]) {
            assert forall|q: int| 0 <= q < kept_from(ms, k).len() implies kept_from(ms, k)[q] < k by {
                if q < prev.len() {
                    assert(kept_from(ms, k)[q] == prev[q]);
                }
            }
        }
    }
}

fn kept_positions(ms: &Vec<WireModel>) -> (r: Vec<usize>)
    ensures
        r@ == kept_from(ms@, ms@.len() as int),
        forall|q: int| 0 <= q < r@.len() ==> r@[q] < ms@.len(),
{
    let mut out: Vec<usize> = Vec::new();
    let mut i: usize = 0;
    while i < ms.len()
        invariant
            i <= ms@.len(),
            out@ == kept_from(ms@, i as int),
        decreases ms@.len() - i,
    {
        let deprecated = match &ms[i].status {
            Some(st) => str_eq(st.as_str(), "deprecated"),
            None => false,
        };
        if !deprecated {
            out.push(i);
        }
        i += 1;
    }
    proof {
        lemma_kept_bound(ms@, ms@.len() as int);
    }
    out
}

fn all_positions(n: usize) -> (r: Vec<usize>)
    ensures
        r@ == positions(n as nat),
{
    let mut out: Vec<usize> = Vec::new();
    let mut i: usize = 0;
    while i < n
        invariant
            i <= n,
            out@ == positions(i as nat),
        decreases n - i,
    {
        out.push(i);
        i += 1;
        proof {
            assert(out@ =~= positions(i as nat));
        }
    }
    out
}

fn name_of(n: &String) -> (r: Option<String>)
    ensures
        opt_text(r) == name_or_none(n@),
{
    if chars_of(n.as_str()).len() == 0 {
        None
    } else {
        Some(n.clone())
    }
}

fn copy_texts(v: &Vec<String>) -> (r: Vec<String>)
    ensures
        views(r@) == views(v@),
{
    let mut out: Vec<String> = Vec::new();
    let mut i: usize = 0;
    while i < v.len()
        invariant
            i <= v@.len(),
            views(out@) == views(v@).subrange(0, i as int),
        decreases v@.len() - i,
    {
        let ghost before = out@;
        out.push(v[i].clone());
        proof {
            assert(views(out@) =~= views(before).push(v@[i as int]@));
            assert(views(v@).subrange(0, i + 1) =~= views(v@).subrange(0, i as int).push(v@[i as int]@));
        }
        i += 1;
    }
    proof {
        assert(views(v@).subrange(0, v@.len() as int) =~= views(v@));
    }
    out
}

fn catalog_model(m: &WireModel) -> (r: CatalogModel)
    ensures
        lists_model(r, *m),
{
    CatalogModel {
        id: m.id.clone(),
        name: name_of(&m.name),
        variants: sort_texts(copy_texts(&m.variants)),
        context_limit: match m.context_limit {
            Some(l) => l,
            None => 0,
        },
    }
}

fn catalog_provider(p: &WireProvider) -> (r: CatalogProvider)
    ensures
        lists_provider(r, *p),
{
    let order = stable_sort_positions(&p.models, kept_positions(&p.models));
    proof {
        lemma_stable_sorted_within(kept_from(p.models@, p.models@.len() as int), rank_order(p.models@), p.models@.len());
    }
    let mut models: Vec<CatalogModel> = Vec::new();
    let mut k: usize = 0;
    while k < order.len()
        invariant
            order@ == model_listing(p.models@),
            forall|q: int| 0 <= q < order@.len() ==> order@[q] < p.models@.len(),
            k <= order@.len(),
            models@.len() == k,
            forall|q: int| 0 <= q < k ==> lists_model(#[trigger] models@[q], p.models@[order@[q] as int]),
        decreases order@.len() - k,
    {
        models.push(catalog_model(&p.models[order[k]]));
        k += 1;
    }
    CatalogProvider { id: p.id.clone(), name: name_of(&p.name), models }
}

/// Sorting keeps every position below a bound below it.
pub proof fn lemma_stable_sorted_within(idx: Seq<usize>, lt: spec_fn(usize, usize) -> bool, n: nat)
    requires
        forall|q: int| 0 <= q < idx.len() ==> idx[q] < n,
    ensures
        forall|q: int| 0 <= q < stable_sorted(idx, lt).len() ==> stable_sorted(idx, lt)[q] < n,
        stable_sorted(idx, lt).len() == idx.len(),
    decreases idx.len(),
{
    if idx.len() > 0 {
        let p = min_pos(idx, lt, idx.len() as int);
        lemma_min_pos_range(idx, lt, idx.len() as int);
        let rest = idx.remove(p);
        assert forall|q: int| 0 <= q < rest.len() implies rest[q] < n by {
            if q < p {
                assert(rest[q] == idx[q]);
            } else {
                assert(rest[q] == idx[q + 1]);
            }
        }
        lemma_stable_sorted_within(rest, lt, n);
        let s = stable_sorted(idx, lt);
        assert(s == seq![idx[p]] + stable_sorted(rest, lt));
        assert forall|q: int| 0 <= q < s.len() implies s[q] < n by {
            if q > 0 {
                assert(s[q] == stable_sorted(rest, lt)[q - 1]);
            }
        }
    }
}

/// The catalog of the provider list (see `catalog_of`).
pub fn build_catalog(list: &ProviderList) -> (r: ModelCatalog)
    ensures
        catalog_of(r, *list),
{
    let order = stable_sort_positions(&list.all, all_positions(list.all.len()));
    proof {
        lemma_stable_sorted_within(positions(list.all@.len()), rank_order(list.all@), list.all@.len());
    }
    let mut providers: Vec<CatalogProvider> = Vec::new();
    let mut k: usize = 0;
    while k < order.len()
        invariant
            order@ == provider_listing(list.all@),
            forall|q: int| 0 <= q < order@.len() ==> order@[q] < list.all@.len(),
            k <= order@.len(),
            providers@.len() == k,
            forall|q: int| 0 <= q < k ==> lists_provider(#[trigger] providers@[q], list.all@[order@[q] as int]),
        decreases order@.len() - k,
    {
        providers.push(catalog_provider(&list.all[order[k]]));
        k += 1;
    }
    ModelCatalog { providers }
}

/// The position of the first provider from `k` on that offers a model, or the
/// number of providers where none does.
pub open spec fn first_stocked(ps: Seq<CatalogProvider>, k: int) -> int
    decreases ps.len() - k,
{
    if k < 0 || k >= ps.len() {
        ps.len() as int
    } else if ps[k].models@.len() > 0 {
        k
    } else {
        first_stocked(ps, k + 1)
    }
}

/// The default model the list names for provider `pid`: that of the first
/// pair for it.
pub open spec fn default_for(ds: Seq<(String, String)>, pid: Seq<char>) -> Option<Seq<char>>
    decreases ds.len(),
{
    if ds.len() == 0 {
        None
    } else if ds[0].0@ == pid {
        Some(ds[0].1@)
    } else {
        default_for(ds.drop_first(), pid)
    }
}

/// Whether provider `p` offers a model with id `mid`.
pub open spec fn offers(p: CatalogProvider, mid: Seq<char>) -> bool {
    exists|j: int| 0 <= j < p.models@.len() && (#[trigger] p.models@[j]).id@ == mid
}

/// The model picked when none is in use: of the first provider that offers a
/// model, its default model where the list names one it offers, else its
/// first model; none where no provider offers a model.
pub open spec fn picked_model(ds: Seq<(String, String)>, ps: Seq<CatalogProvider>) -> Option<(Seq<char>, Seq<char>)> {
    let i = first_stocked(ps, 0);
    if i >= ps.len() {
        None
    } else {
        let p = ps[i];
        match default_for(ds, p.id@) {
            Some(mid) => if offers(p, mid) {
                Some((p.id@, mid))
            } else {
                Some((p.id@, p.models@[0].id@))
            },
            None => Some((p.id@, p.models@[0].id@)),
        }
    }
}

/// A model reference as the texts of its provider and model ids.
pub open spec fn ref_text(r: Option<ModelRef>) -> Option<(Seq<char>, Seq<char>)> {
    match r {
        Some(m) => Some((m.provider_id@, m.model_id@)),
        None => None,
    }
}

/// Whether the catalog offers the model `m`: some provider with its provider id
/// offers a model with its id.
pub open spec fn catalog_has(c: ModelCatalog, m: ModelRef) -> bool {
    exists|i: int| 0 <= i < c.providers@.len() && (#[trigger] c.providers@[i]).id@ == m.provider_id@
        && offers(c.providers@[i], m.model_id@)
}

fn provider_offers(p: &CatalogProvider, mid: &str) -> (r: bool)
    ensures
        r == offers(*p, mid@),
{
    let mut j: usize = 0;
    while j < p.models.len()
        invariant
            j <= p.models@.len(),
            forall|q: int| 0 <= q < j ==> (#[trigger] p.models@[q]).id@ != mid@,
        decreases p.models@.len() - j,
    {
        if str_eq(p.models[j].id.as_str(), mid) {
            return true;
        }
        j += 1;
    }
    false
}

impl ModelCatalog {
    /// Whether the catalog offers the model `m` (see `catalog_has`).
    pub fn has(&self, m: &ModelRef) -> (r: bool)
        ensures
            r == catalog_has(*self, *m),
    {
        let mut i: usize = 0;
        while i < self.providers.len()
            invariant
                i <= self.providers@.len(),
                forall|q: int| 0 <= q < i ==> !((#[trigger] self.providers@[q]).id@ == m.provider_id@
                    && offers(self.providers@[q], m.model_id@)),
            decreases self.providers@.len() - i,
        {
            let p = &self.providers[i];
            if str_eq(p.id.as_str(), m.provider_id.as_str()) && provider_offers(p, m.model_id.as_str()) {
                return true;
            }
            i += 1;
        }
        false
    }
}

fn default_model_id(ds: &Vec<(String, String)>, pid: &str) -> (r: Option<String>)
    ensures
        opt_text(r) == default_for(ds@, pid@),
{
    let mut i: usize = 0;
    proof {
        assert(ds@.skip(0) =~= ds@);
    }
    while i < ds.len()
        invariant
            i <= ds@.len(),
            default_for(ds@, pid@) == default_for(ds@.skip(i as int), pid@),
        decreases ds@.len() - i,
    {
        assert(ds@.skip(i as int)[0] == ds@[i as int]);
        assert(ds@.skip(i as int).drop_first() =~= ds@.skip(i + 1));
        if str_eq(ds[i].0.as_str(), pid) {
            return Some(ds[i].1.clone());
        }
        i += 1;
    }
    assert(ds@.skip(i as int) =~= Seq::<(String, String)>::empty());
    None
}

/// The model to use when none is (see `picked_model`).
pub fn pick_default_model(list: &ProviderList, catalog: &ModelCatalog) -> (r: Option<ModelRef>)
    ensures
        ref_text(r) == picked_model(list.default@, catalog.providers@),
{
    let ps = &catalog.providers;
    let mut i: usize = 0;
    proof {
        assert(first_stocked(ps@, 0) == first_stocked(ps@, 0));
    }
    while i < ps.len() && ps[i].models.len() == 0
        invariant
            i <= ps@.len(),
            first_stocked(ps@, 0) == first_stocked(ps@, i as int),
        decreases ps@.len() - i,
    {
        i += 1;
    }
    if i >= ps.len() {
        return None;
    }
    let p = &ps[i];
    let first = ModelRef { provider_id: p.id.clone(), model_id: p.models[0].id.clone() };
    match default_model_id(&list.default, p.id.as_str()) {
        Some(mid) => {
            if provider_offers(p, mid.as_str()) {
                Some(ModelRef { provider_id: p.id.clone(), model_id: mid })
            } else {
                Some(first)
            }
        },
        None => Some(first),
    }
}

/// What a refresh of the provider list asks: show the catalog, and, where the
/// model in use is not offered any more (or none is), use the picked one (see
/// `catalog_of` and `picked_model`).
pub fn provider_refresh_actions(list: &ProviderList, current_model: Option<&ModelRef>) -> (r: Vec<ProviderAction>)
    ensures
        r@.len() >= 1,
        r@[0] matches ProviderAction::SetCatalog(c) && catalog_of(c, *list),
        ({
            let c = r@[0]->SetCatalog_0;
            let still_valid = match current_model {
                Some(m) => catalog_has(c, *m),
                None => false,
            };
            &&& still_valid ==> r@.len() == 1
            &&& !still_valid ==> r@.len() == 2 && r@[1] is SetCurrentModel
                && ref_text(r@[1]->SetCurrentModel_0) == picked_model(list.default@, c.providers@)
        }),
{
    let catalog = build_catalog(list);
    let still_valid = match current_model {
        Some(m) => catalog.has(m),
        None => false,
    };
    let picked = if still_valid {
        None
    } else {
        Some(pick_default_model(list, &catalog))
    };
    let mut out: Vec<ProviderAction> = Vec::new();
    out.push(ProviderAction::SetCatalog(catalog));
    match picked {
        Some(m) => out.push(ProviderAction::SetCurrentModel(m)),
        None => {},
    }
    out
}

/// `lt` is a strict order: nothing comes before itself, and it is transitive.
pub open spec fn strict_order(lt: spec_fn(usize, usize) -> bool) -> bool {
    &&& forall|a: usize| !(#[trigger] lt(a, a))
    &&& forall|a: usize, b: usize, c: usize| #[trigger] lt(a, b) && #[trigger] lt(b, c) ==> lt(a, c)
}

proof fn lemma_min_pos_least(idx: Seq<usize>, lt: spec_fn(usize, usize) -> bool, k: int)
    requires
        strict_order(lt),
        1 <= k <= idx.len(),
    ensures
        forall|q: int| 0 <= q < k ==> !lt(#[trigger] idx[q], idx[min_pos(idx, lt, k)]),
    decreases k,
{
    lemma_min_pos_range(idx, lt, k);
    if k > 1 {
        lemma_min_pos_least(idx, lt, k - 1);
        let b = min_pos(idx, lt, k - 1);
        lemma_min_pos_range(idx, lt, k - 1);
        if lt(idx[k - 1], idx[b]) {
            assert forall|q: int| 0 <= q < k implies !lt(#[trigger] idx[q], idx[k - 1]) by {
                if q < k - 1 && lt(idx[q], idx[k - 1]) {
                    assert(lt(idx[q], idx[b]));
                }
            }
        }
    }
}

proof fn lemma_stable_sorted_perm(idx: Seq<usize>, lt: spec_fn(usize, usize) -> bool)
    ensures
        stable_sorted(idx, lt).to_multiset() == idx.to_multiset(),
    decreases idx.len(),
{
    broadcast use vstd::multiset::group_multiset_axioms;
    if idx.len() == 0 {
        assert(stable_sorted(idx, lt) =~= idx);
    } else {
        let p = min_pos(idx, lt, idx.len() as int);
        lemma_min_pos_range(idx, lt, idx.len() as int);
        let rest = idx.remove(p);
        lemma_stable_sorted_perm(rest, lt);
        vstd::seq_lib::to_multiset_remove(idx, p);
        vstd::seq_lib::lemma_multiset_commutative(seq![idx[p]], stable_sorted(rest, lt));
        vstd::seq_lib::to_multiset_contains(idx, idx[p]);
        assert(seq![idx[p]].to_multiset() =~= vstd::multiset::Multiset::empty().insert(idx[p])) by {
            vstd::seq_lib::to_multiset_build(Seq::<usize>::empty(), idx[p]);
            assert(Seq::<usize>::empty().push(idx[p]) =~= seq![idx[p]]);
            vstd::seq_lib::to_multiset_len(Seq::<usize>::empty());
            vstd::multiset::lemma_multiset_empty_len(Seq::<usize>::empty().to_multiset());
            assert(Seq::<usize>::empty().to_multiset() =~= vstd::multiset::Multiset::<usize>::empty());
        }
        assert(stable_sorted(idx, lt).to_multiset() =~= idx.to_multiset());
    }
}

proof fn lemma_stable_sorted_sorted(idx: Seq<usize>, lt: spec_fn(usize, usize) -> bool)
    requires
        strict_order(lt),
    ensures
        forall|i: int, j: int| 0 <= i < j < stable_sorted(idx, lt).len()
            ==> !lt(#[trigger] stable_sorted(idx, lt)[j], #[trigger] stable_sorted(idx, lt)[i]),
    decreases idx.len(),
{
    if idx.len() > 0 {
        let p = min_pos(idx, lt, idx.len() as int);
        lemma_min_pos_range(idx, lt, idx.len() as int);
        lemma_min_pos_least(idx, lt, idx.len() as int);
        let rest = idx.remove(p);
        lemma_stable_sorted_sorted(rest, lt);
        lemma_stable_sorted_perm(rest, lt);
        let s = stable_sorted(idx, lt);
        let t = stable_sorted(rest, lt);
        assert(s == seq![idx[p]] + t);
        assert forall|i: int, j: int| 0 <= i < j < s.len() implies !lt(#[trigger] s[j], #[trigger] s[i]) by {
            if i > 0 {
                assert(s[i] == t[i - 1]);
                assert(s[j] == t[j - 1]);
            } else {
                let y = t[j - 1];
                assert(s[j] == y);
                vstd::seq_lib::to_multiset_contains(t, y);
                vstd::seq_lib::to_multiset_contains(rest, y);
                assert(t.contains(y));
                assert(rest.contains(y));
                let q = choose|q: int| 0 <= q < rest.len() && rest[q] == y;
                if q < p {
                    assert(rest[q] == idx[q]);
                    assert(!lt(idx[q], idx[p]));
                } else {
                    assert(rest[q] == idx[q + 1]);
                    assert(!lt(idx[q + 1], idx[p]));
                }
            }
        }
    }
}

proof fn lemma_kept_not_deprecated(ms: Seq<WireModel>, k: int)
    requires
        0 <= k <= ms.len(),
        ms.len() <= usize::MAX,
    ensures
        forall|q: int| 0 <= q < kept_from(ms, k).len() ==> !is_deprecated(ms[#[trigger] kept_from(ms, k)[q] as int]),
    decreases k,
{
    if k > 0 {
        lemma_kept_not_deprecated(ms, k - 1);
        let prev = kept_from(ms, k - 1);
        if !is_deprecated(ms[k - 1]) {
            assert forall|q: int| 0 <= q < kept_from(ms, k).len() implies !is_deprecated(ms[#[trigger] kept_from(ms, k)[q] as int]) by {
                if q < prev.len() {
                    assert(kept_from(ms, k)[q] == prev[q]);
                }
            }
        }
    }
}

proof fn lemma_provider_order_strict(ps: Seq<WireProvider>)
    ensures
        strict_order(rank_order(ps)),
{
    let lt = rank_order(ps);
    assert forall|a: usize| !(#[trigger] lt(a, a)) by {
        crate::text::lemma_text_lt_irreflexive(ascii_lower(ps[a as int].name@));
    }
    assert forall|a: usize, b: usize, c: usize| #[trigger] lt(a, b) && #[trigger] lt(b, c) implies lt(a, c) by {
        let (x, y, z) = (ps[a as int], ps[b as int], ps[c as int]);
        if is_house_provider(x) == is_house_provider(y) && is_house_provider(y) == is_house_provider(z) {
            crate::text::lemma_text_lt_transitive(ascii_lower(x.name@), ascii_lower(y.name@), ascii_lower(z.name@));
        }
    }
}

proof fn lemma_model_order_strict(ms: Seq<WireModel>)
    ensures
        strict_order(rank_order(ms)),
{
    let lt = rank_order(ms);
    assert forall|a: usize| !(#[trigger] lt(a, a)) by {
        crate::text::lemma_text_lt_irreflexive(ascii_lower(ms[a as int].name@));
        crate::text::lemma_text_lt_irreflexive(ms[a as int].id@);
    }
    assert forall|a: usize, b: usize, c: usize| #[trigger] lt(a, b) && #[trigger] lt(b, c) implies lt(a, c) by {
        let (x, y, z) = (ms[a as int], ms[b as int], ms[c as int]);
        let (nx, ny, nz) = (ascii_lower(x.name@), ascii_lower(y.name@), ascii_lower(z.name@));
        if text_lt(nx, ny) && text_lt(ny, nz) {
            crate::text::lemma_text_lt_transitive(nx, ny, nz);
        }
        if nx == ny && ny == nz && text_lt(x.id@, y.id@) && text_lt(y.id@, z.id@) {
            crate::text::lemma_text_lt_transitive(x.id@, y.id@, z.id@);
        }
    }
}

/// The picker lists every provider once, the server's own first and the rest by
/// name without case, none listed after one it should follow; and of each
/// provider, every model that is not deprecated once and no deprecated one, by
/// name without case and then id.
pub proof fn law_catalog_lists_in_picker_order(list: ProviderList)
    requires
        list.all@.len() <= usize::MAX,
        forall|i: int| 0 <= i < list.all@.len() ==> (#[trigger] list.all@[i]).models@.len() <= usize::MAX,
    ensures
        provider_listing(list.all@).to_multiset() == positions(list.all@.len()).to_multiset(),
        forall|i: int, j: int| 0 <= i < j < provider_listing(list.all@).len() ==> !provider_lt(
            list.all@[#[trigger] provider_listing(list.all@)[j] as int],
            list.all@[#[trigger] provider_listing(list.all@)[i] as int],
        ),
        forall|p: int| 0 <= p < list.all@.len() ==> {
            let ms = (#[trigger] list.all@[p]).models@;
            &&& model_listing(ms).to_multiset() == kept_from(ms, ms.len() as int).to_multiset()
            &&& forall|q: int| 0 <= q < model_listing(ms).len() ==> !is_deprecated(ms[#[trigger] model_listing(ms)[q] as int])
            &&& forall|i: int, j: int| 0 <= i < j < model_listing(ms).len() ==> !model_lt(
                ms[#[trigger] model_listing(ms)[j] as int],
                ms[#[trigger] model_listing(ms)[i] as int],
            )
        },
{
    let ps = list.all@;
    lemma_provider_order_strict(ps);
    lemma_stable_sorted_perm(positions(ps.len()), rank_order(ps));
    lemma_stable_sorted_sorted(positions(ps.len()), rank_order(ps));
    assert forall|i: int, j: int| 0 <= i < j < provider_listing(ps).len() implies !provider_lt(
        ps[#[trigger] provider_listing(ps)[j] as int],
        ps[#[trigger] provider_listing(ps)[i] as int],
    ) by {
        assert(!rank_order(ps)(provider_listing(ps)[j], provider_listing(ps)[i]));
    }
    assert forall|p: int| 0 <= p < ps.len() implies {
        let ms = (#[trigger] ps[p]).models@;
        &&& model_listing(ms).to_multiset() == kept_from(ms, ms.len() as int).to_multiset()
        &&& forall|q: int| 0 <= q < model_listing(ms).len() ==> !is_deprecated(ms[#[trigger] model_listing(ms)[q] as int])
        &&& forall|i: int, j: int| 0 <= i < j < model_listing(ms).len() ==> !model_lt(
            ms[#[trigger] model_listing(ms)[j] as int],
            ms[#[trigger] model_listing(ms)[i] as int],
        )
    } by {
        let ms = ps[p].models@;
        let kept = kept_from(ms, ms.len() as int);
        lemma_model_order_strict(ms);
        lemma_stable_sorted_perm(kept, rank_order(ms));
        lemma_stable_sorted_sorted(kept, rank_order(ms));
        lemma_kept_not_deprecated(ms, ms.len() as int);
        let order = model_listing(ms);
        assert forall|q: int| 0 <= q < order.len() implies !is_deprecated(ms[#[trigger] order[q] as int]) by {
            vstd::seq_lib::to_multiset_contains(order, order[q]);
            vstd::seq_lib::to_multiset_contains(kept, order[q]);
            assert(order.contains(order[q]));
            let w = choose|w: int| 0 <= w < kept.len() && kept[w] == order[q];
            assert(!is_deprecated(ms[kept[w] as int]));
        }
        assert forall|i: int, j: int| 0 <= i < j < order.len() implies !model_lt(
            ms[#[trigger] order[j] as int],
            ms[#[trigger] order[i] as int],
        ) by {
            assert(!rank_order(ms)(order[j], order[i]));
        }
    }
}

proof fn lemma_first_stocked_is(ps: Seq<CatalogProvider>, k: int, i: int)
    requires
        0 <= k <= i < ps.len(),
        ps[i].models@.len() > 0,
        forall|q: int| k <= q < i ==> (#[trigger] ps[q]).models@.len() == 0,
    ensures
        first_stocked(ps, k) == i,
    decreases i - k,
{
    if k < i {
        lemma_first_stocked_is(ps, k + 1, i);
    }
}

proof fn lemma_first_stocked_none(ps: Seq<CatalogProvider>, k: int)
    requires
        0 <= k,
        forall|q: int| k <= q < ps.len() ==> (#[trigger] ps[q]).models@.len() == 0,
    ensures
        first_stocked(ps, k) >= ps.len(),
    decreases ps.len() - k,
{
    if k < ps.len() {
        lemma_first_stocked_none(ps, k + 1);
    }
}

proof fn lemma_first_pair_for(ds: Seq<(String, String)>, pid: Seq<char>, k: int)
    requires
        0 <= k < ds.len(),
        ds[k].0@ == pid,
        forall|q: int| 0 <= q < k ==> (#[trigger] ds[q]).0@ != pid,
    ensures
        default_for(ds, pid) == Some(ds[k].1@),
    decreases k,
{
    if k > 0 {
        let rest = ds.drop_first();
        assert(ds[0].0@ != pid);
        assert forall|q: int| 0 <= q < k - 1 implies (#[trigger] rest[q]).0@ != pid by {
            assert(rest[q] == ds[q + 1]);
        }
        assert(rest[k - 1] == ds[k]);
        lemma_first_pair_for(rest, pid, k - 1);
    }
}

proof fn lemma_no_pair_for(ds: Seq<(String, String)>, pid: Seq<char>)
    requires
        forall|q: int| 0 <= q < ds.len() ==> (#[trigger] ds[q]).0@ != pid,
    ensures
        default_for(ds, pid) is None,
    decreases ds.len(),
{
    if ds.len() > 0 {
        let rest = ds.drop_first();
        assert forall|q: int| 0 <= q < rest.len() implies (#[trigger] rest[q]).0@ != pid by {
            assert(rest[q] == ds[q + 1]);
        }
        lemma_no_pair_for(rest, pid);
    }
}

/// When no model is in use, the one picked is the server's default: where `i` is
/// the first provider that offers a model, and the first default pair naming it
/// (pair `k`) names a model it offers (model `j`), that model of that provider is
/// picked.
pub proof fn law_picked_model_is_server_default(ds: Seq<(String, String)>, ps: Seq<CatalogProvider>, i: int, k: int, j: int)
    requires
        0 <= i < ps.len(),
        ps[i].models@.len() > 0,
        forall|q: int| 0 <= q < i ==> (#[trigger] ps[q]).models@.len() == 0,
        0 <= k < ds.len(),
        ds[k].0@ == ps[i].id@,
        forall|q: int| 0 <= q < k ==> (#[trigger] ds[q]).0@ != ps[i].id@,
        0 <= j < ps[i].models@.len(),
        ps[i].models@[j].id@ == ds[k].1@,
    ensures
        picked_model(ds, ps) == Some((ps[i].id@, ds[k].1@)),
{
    lemma_first_stocked_is(ps, 0, i);
    lemma_first_pair_for(ds, ps[i].id@, k);
    assert(offers(ps[i], ds[k].1@));
}

/// Where no default pair names the first provider that offers a model (`i`), or
/// the first pair naming it names a model it does not offer, its first model is
/// picked; where no provider offers a model, none is.
pub proof fn law_picked_model_falls_back_to_first(ds: Seq<(String, String)>, ps: Seq<CatalogProvider>, i: int)
    requires
        0 <= i <= ps.len(),
        i < ps.len() ==> ps[i].models@.len() > 0,
        forall|q: int| 0 <= q < i ==> (#[trigger] ps[q]).models@.len() == 0,
        i < ps.len() ==> forall|k: int|
            0 <= k < ds.len() && ds[k].0@ == ps[i].id@ && (forall|q: int| 0 <= q < k ==> (#[trigger] ds[q]).0@ != ps[i].id@)
                ==> forall|j: int| 0 <= j < ps[i].models@.len() ==> (#[trigger] ps[i].models@[j]).id@ != (#[trigger] ds[k]).1@,
    ensures
        picked_model(ds, ps) == if i < ps.len() {
            Some((ps[i].id@, ps[i].models@[0].id@))
        } else {
            None
        },
{
    if i < ps.len() {
        lemma_first_stocked_is(ps, 0, i);
        let pid = ps[i].id@;
        if exists|k: int| 0 <= k < ds.len() && (#[trigger] ds[k]).0@ == pid {
            let k0 = choose|k: int| 0 <= k < ds.len() && (#[trigger] ds[k]).0@ == pid;
            let k = lemma_least_pair_for(ds, pid, k0);
            lemma_first_pair_for(ds, pid, k);
            if offers(ps[i], ds[k].1@) {
                let j = choose|j: int| 0 <= j < ps[i].models@.len() && (#[trigger] ps[i].models@[j]).id@ == ds[k].1@;
                assert(ps[i].models@[j].id@ != ds[k].1@);
            }
        } else {
            lemma_no_pair_for(ds, pid);
        }
    } else {
        lemma_first_stocked_none(ps, 0);
    }
}

proof fn lemma_least_pair_for(ds: Seq<(String, String)>, pid: Seq<char>, k0: int) -> (k: int)
    requires
        0 <= k0 < ds.len(),
        ds[k0].0@ == pid,
    ensures
        0 <= k <= k0,
        ds[k].0@ == pid,
        forall|q: int| 0 <= q < k ==> (#[trigger] ds[q]).0@ != pid,
    decreases k0,
{
    if exists|q: int| 0 <= q < k0 && (#[trigger] ds[q]).0@ == pid {
        let q0 = choose|q: int| 0 <= q < k0 && (#[trigger] ds[q]).0@ == pid;
        lemma_least_pair_for(ds, pid, q0)
    } else {
        k0
    }
}

} // verus!
