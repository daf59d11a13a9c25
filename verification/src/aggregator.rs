//! Consolidation of records: records whose normalized name and unit agree
//! form one item; an item keeps the item number, unit and name of its first
//! record, every quantity added to it in order, and the quantities per
//! source file.
use vstd::prelude::*;

use dashmap::DashMap;

use crate::header::{first_index, lemma_first_index_range};
use crate::models::{ExcelRecord, RecordView};
use crate::normalization::{normalized, Normalizer};
use crate::parser::records_view;

verus! {

#[verifier::external_type_specification]
#[verifier::external_body]
#[verifier::reject_recursive_types(K)]
#[verifier::reject_recursive_types(V)]
#[verifier::reject_recursive_types(S)]
pub struct ExDashMap<K, V, S>(DashMap<K, V, S>);

/// A `DashMap` from (name, unit) keys to positions.
pub type KeyIndex = DashMap<(String, String), usize>;

/// A (name, unit) key, by its characters.
pub type KeyView = (Seq<char>, Seq<char>);

/// The entries of a `DashMap` from (name, unit) keys to positions.
pub uninterp spec fn index_entries(m: KeyIndex) -> Map<KeyView, usize>;

pub open spec fn no_keys() -> Map<KeyView, usize> {
    Map::empty()
}

/// Creates an empty map with `DashMap::new`.
#[verifier::external_body]
fn index_new() -> (r: KeyIndex)
    ensures
        index_entries(r) == no_keys(),
{
    DashMap::new()
}

/// Looks a key up with `DashMap::get` and copies the value found.
#[verifier::external_body]
fn index_get(m: &KeyIndex, key: &(String, String)) -> (r: Option<usize>)
    ensures
        r == (if index_entries(*m).dom().contains((key.0@, key.1@)) {
            Some(index_entries(*m)[(key.0@, key.1@)])
        } else {
            None
        }),
{
    m.get(key).map(|entry| *entry)
}

/// Sets the value of a key with `DashMap::insert`.
#[verifier::external_body]
fn index_insert(m: &mut KeyIndex, key: (String, String), value: usize)
    ensures
        index_entries(*final(m)) == index_entries(*old(m)).insert((key.0@, key.1@), value),
{
    m.insert(key, value);
}

/// The quantities of one source file within an item.
pub struct SourceShare<Q> {
    pub file: String,
    pub quantities: Vec<Option<Q>>,
}

/// One consolidated item.
pub struct ItemGroup<Q> {
    pub key_name: String,
    pub key_unit: String,
    pub stt: String,
    pub don_vi: String,
    pub ten_cong_viec: String,
    pub quantities: Vec<Option<Q>>,
    pub sources: Vec<SourceShare<Q>>,
}

#[verifier::ext_equal]
pub struct GroupView<Q> {
    pub key: (Seq<char>, Seq<char>),
    pub stt: Seq<char>,
    pub don_vi: Seq<char>,
    pub ten_cong_viec: Seq<char>,
    pub quantities: Seq<Option<Q>>,
    pub sources: Seq<(Seq<char>, Seq<Option<Q>>)>,
}

pub open spec fn share_view<Q>(s: SourceShare<Q>) -> (Seq<char>, Seq<Option<Q>>) {
    (s.file@, s.quantities@)
}

impl<Q> View for ItemGroup<Q> {
    type V = GroupView<Q>;

    open spec fn view(&self) -> GroupView<Q> {
        GroupView {
            key: (self.key_name@, self.key_unit@),
            stt: self.stt@,
            don_vi: self.don_vi@,
            ten_cong_viec: self.ten_cong_viec@,
            quantities: self.quantities@,
            sources: self.sources@.map_values(|s: SourceShare<Q>| share_view(s)),
        }
    }
}

pub open spec fn groups_view<Q>(g: Vec<ItemGroup<Q>>) -> Seq<GroupView<Q>> {
    g@.map_values(|x: ItemGroup<Q>| x@)
}

/// The key under which a record is consolidated: its normalized name and
/// unit.
pub open spec fn record_key<Q>(r: RecordView<Q>) -> (Seq<char>, Seq<char>) {
    (normalized(true, r.ten_cong_viec), normalized(true, r.don_vi))
}

/// The quantity value of a record; `None` counts as zero.
pub open spec fn amount<Q>(r: RecordView<Q>) -> Option<Q> {
    match r.khoi_luong {
        Some(q) => Some(q.value),
        None => None,
    }
}

pub open spec fn group_key_pred<Q>(groups: Seq<GroupView<Q>>, k: (Seq<char>, Seq<char>)) -> spec_fn(
    int,
) -> bool {
    |i: int| 0 <= i < groups.len() && groups[i].key == k
}

pub open spec fn find_group<Q>(groups: Seq<GroupView<Q>>, k: (Seq<char>, Seq<char>)) -> Option<int> {
    first_index(0, groups.len() as int, group_key_pred(groups, k))
}

pub open spec fn source_pred<Q>(sources: Seq<(Seq<char>, Seq<Option<Q>>)>, file: Seq<char>) -> spec_fn(
    int,
) -> bool {
    |j: int| 0 <= j < sources.len() && sources[j].0 == file
}

pub open spec fn find_source<Q>(sources: Seq<(Seq<char>, Seq<Option<Q>>)>, file: Seq<char>) -> Option<
    int,
> {
    first_index(0, sources.len() as int, source_pred(sources, file))
}

/// An item with one more quantity, from the given source file.
pub open spec fn add_to_group<Q>(g: GroupView<Q>, file: Seq<char>, q: Option<Q>) -> GroupView<Q> {
    GroupView {
        quantities: g.quantities.push(q),
        sources: match find_source(g.sources, file) {
            Some(j) => g.sources.update(j, (file, g.sources[j].1.push(q))),
            None => g.sources.push((file, seq![q])),
        },
        ..g
    }
}

/// The items after adding one record: to the item of its key, or as a new
/// item at the end.
pub open spec fn add_record<Q>(groups: Seq<GroupView<Q>>, r: RecordView<Q>) -> Seq<GroupView<Q>> {
    let k = record_key(r);
    match find_group(groups, k) {
        Some(i) => groups.update(i, add_to_group(groups[i], r.source_file, amount(r))),
        None => groups.push(
            GroupView {
                key: k,
                stt: r.stt,
                don_vi: r.don_vi,
                ten_cong_viec: r.ten_cong_viec,
                quantities: seq![amount(r)],
                sources: seq![(r.source_file, seq![amount(r)])],
            },
        ),
    }
}

/// The items after adding the records in order.
pub open spec fn aggregate<Q>(groups: Seq<GroupView<Q>>, recs: Seq<RecordView<Q>>) -> Seq<
    GroupView<Q>,
>
    decreases recs.len(),
{
    if recs.len() == 0 {
        groups
    } else {
        add_record(aggregate(groups, recs.drop_last()), recs.last())
    }
}

pub open spec fn group_key<Q>(g: ItemGroup<Q>) -> KeyView {
    (g.key_name@, g.key_unit@)
}

/// The items and the index from each key to the position of its item.
struct Table<Q> {
    index: KeyIndex,
    groups: Vec<ItemGroup<Q>>,
    normalizer: Normalizer,
}

pub open spec fn sources_distinct<Q>(s: Seq<(Seq<char>, Seq<Option<Q>>)>) -> bool {
    forall|a: int, b: int| 0 <= a < b < s.len() ==> (#[trigger] s[a]).0 != (#[trigger] s[b]).0
}

pub open spec fn groups_distinct<Q>(g: Seq<GroupView<Q>>) -> bool {
    &&& forall|a: int, b: int| 0 <= a < b < g.len() ==> (#[trigger] g[a]).key != (#[trigger] g[b]).key
    &&& forall|a: int| 0 <= a < g.len() ==> sources_distinct(#[trigger] g[a].sources)
}

impl<Q> Table<Q> {
    /// The consolidated items, in the order their first record came.
    closed spec fn view(&self) -> Seq<GroupView<Q>> {
        groups_view(self.groups)
    }

    closed spec fn wf(&self) -> bool {
        &&& self.normalizer.strip_numbers
        &&& groups_distinct(groups_view(self.groups))
        &&& forall|k: (Seq<char>, Seq<char>)| #[trigger]
            index_entries(self.index).dom().contains(k) <==> exists|i: int|
                0 <= i < self.groups@.len() && #[trigger] group_key(self.groups@[i]) == k
        &&& forall|i: int|
            0 <= i < self.groups@.len() ==> index_entries(self.index)[#[trigger] group_key(
                self.groups@[i],
            )] == i
    }

    fn new() -> (a: Table<Q>)
        ensures
            a.wf(),
            a@ == Seq::<GroupView<Q>>::empty(),
    {
        let a = Table { index: index_new(), groups: Vec::new(), normalizer: Normalizer::new(true) };
        assert(groups_view(a.groups) =~= Seq::<GroupView<Q>>::empty());
        a
    }
}

proof fn lemma_first_at_unique(lo: int, hi: int, i: int, p: spec_fn(int) -> bool)
    requires
        lo <= i < hi,
        p(i),
        forall|j: int| lo <= j < hi && j != i ==> !#[trigger] p(j),
    ensures
        first_index(lo, hi, p) == Some(i),
{
    lemma_first_index_range(lo, hi, p);
}

proof fn lemma_first_none(lo: int, hi: int, p: spec_fn(int) -> bool)
    requires
        forall|j: int| lo <= j < hi ==> !#[trigger] p(j),
    ensures
        first_index(lo, hi, p) is None,
{
    lemma_first_index_range(lo, hi, p);
}

impl<Q: Copy> ItemGroup<Q> {
    /// Adds a quantity from `file` to the item.
    fn add(&mut self, file: String, q: Option<Q>)
        requires
            sources_distinct(old(self)@.sources),
        ensures
            final(self)@ == add_to_group(old(self)@, file@, q),
            sources_distinct(final(self)@.sources),
            final(self).key_name == old(self).key_name,
            final(self).key_unit == old(self).key_unit,
    {
        let ghost g0 = self@;
        self.quantities.push(q);
        assert(self@ =~= GroupView { quantities: g0.quantities.push(q), ..g0 });
        let mut j: usize = 0;
        while j < self.sources.len()
            invariant
                j <= self.sources.len(),
                g0 == old(self)@,
                self@ == (GroupView { quantities: g0.quantities.push(q), ..g0 }),
                self.key_name == old(self).key_name,
                self.key_unit == old(self).key_unit,
                sources_distinct(g0.sources),
                forall|m: int| 0 <= m < j ==> (#[trigger] g0.sources[m]).0 != file@,
            decreases self.sources.len() - j,
        {
            assert(g0.sources[j as int] == share_view(self.sources@[j as int]));
            if self.sources[j].file == file {
                proof {
                    lemma_first_at_unique(0, g0.sources.len() as int, j as int, source_pred(g0.sources, file@));
                }
                let share = &mut self.sources[j];
                share.quantities.push(q);
                assert(self@.sources =~= g0.sources.update(j as int, (file@, g0.sources[j as int].1.push(q))));
                assert(self@ =~= add_to_group(g0, file@, q));
                assert(sources_distinct(self@.sources)) by {
                    assert forall|a: int, b: int| 0 <= a < b < self@.sources.len() implies (#[trigger] self@.sources[a]).0 != (#[trigger] self@.sources[b]).0 by {
                        assert(g0.sources[a].0 != g0.sources[b].0);
                    }
                }
                return;
            }
            j = j + 1;
        }
        proof {
            lemma_first_none(0, g0.sources.len() as int, source_pred(g0.sources, file@));
        }
        let mut first: Vec<Option<Q>> = Vec::new();
        first.push(q);
        self.sources.push(SourceShare { file, quantities: first });
        assert(self@.sources =~= g0.sources.push((file@, seq![q])));
        assert(self@ =~= add_to_group(g0, file@, q));
        assert(sources_distinct(self@.sources)) by {
            assert forall|a: int, b: int| 0 <= a < b < self@.sources.len() implies (#[trigger] self@.sources[a]).0 != (#[trigger] self@.sources[b]).0 by {
                if b < g0.sources.len() {
                    assert(g0.sources[a].0 != g0.sources[b].0);
                }
            }
        }
    }
}

impl<Q: Copy> Table<Q> {
    /// Adds one record to the item of its key, or as a new item.
    fn add_record(&mut self, record: ExcelRecord<Q>)
        requires
            old(self).wf(),
        ensures
            final(self).wf(),
            final(self)@ == add_record(old(self)@, record@),
    {
        let ghost g0 = self@;
        let ghost r = record@;
        let name_key = self.normalizer.normalize(record.ten_cong_viec.as_str());
        let unit_key = self.normalizer.normalize(record.don_vi.as_str());
        let ghost k = (name_key@, unit_key@);
        assert(k == record_key(r));
        let q: Option<Q> = match record.khoi_luong {
            Some(x) => Some(x.value),
            None => None,
        };
        let probe = (name_key.clone(), unit_key.clone());
        match index_get(&self.index, &probe) {
            Some(i) => {
                proof {
                    let w = choose|w: int| 0 <= w < self.groups@.len() && #[trigger] group_key(self.groups@[w]) == k;
                    assert(index_entries(self.index)[group_key(self.groups@[w])] == w);
                    assert(g0[i as int] == self.groups@[i as int]@);
                    assert forall|j: int| 0 <= j < g0.len() && j != i implies !#[trigger] group_key_pred(g0, k)(j) by {
                        assert(g0[j] == self.groups@[j]@);
                    }
                    lemma_first_at_unique(0, g0.len() as int, i as int, group_key_pred(g0, k));
                }
                let ghost old_groups = self.groups@;
                assert(sources_distinct(old_groups[i as int]@.sources));
                let group = &mut self.groups[i];
                group.add(record.source_file, q);
                assert(groups_view(self.groups) =~= add_record(g0, r));
                proof {
                    assert forall|a: int| 0 <= a < self.groups@.len() implies group_key(#[trigger] self.groups@[a]) == group_key(old_groups[a]) by {}
                    assert forall|a: int| 0 <= a < self@.len() implies self@[a].key == g0[a].key by {
                        assert(self@[a] == self.groups@[a]@);
                        assert(g0[a] == old_groups[a]@);
                    }
                    assert forall|a: int| 0 <= a < self@.len() implies sources_distinct(#[trigger] self@[a].sources) by {
                        assert(self@[a] == self.groups@[a]@);
                        assert(g0[a] == old_groups[a]@);
                    }
                    assert forall|a: int, b: int| 0 <= a < b < self@.len() implies (#[trigger] self@[a]).key != (#[trigger] self@[b]).key by {
                        assert(g0[a].key != g0[b].key);
                    }
                    assert forall|k2: KeyView| #[trigger] index_entries(self.index).dom().contains(k2) <==> exists|w: int| 0 <= w < self.groups@.len() && #[trigger] group_key(self.groups@[w]) == k2 by {
                        if index_entries(self.index).dom().contains(k2) {
                            let w = choose|w: int| 0 <= w < old_groups.len() && #[trigger] group_key(old_groups[w]) == k2;
                            assert(group_key(self.groups@[w]) == k2);
                        }
                        if exists|w: int| 0 <= w < self.groups@.len() && #[trigger] group_key(self.groups@[w]) == k2 {
                            let w = choose|w: int| 0 <= w < self.groups@.len() && #[trigger] group_key(self.groups@[w]) == k2;
                            assert(group_key(old_groups[w]) == k2);
                        }
                    }
                }
            },
            None => {
                proof {
                    assert forall|j: int| 0 <= j < g0.len() implies !#[trigger] group_key_pred(g0, k)(j) by {
                        assert(g0[j] == self.groups@[j]@);
                        if g0[j].key == k {
                            assert(group_key(self.groups@[j]) == k);
                        }
                    }
                    lemma_first_none(0, g0.len() as int, group_key_pred(g0, k));
                }
                let pos = self.groups.len();
                let mut amounts: Vec<Option<Q>> = Vec::new();
                amounts.push(q);
                let mut first: Vec<Option<Q>> = Vec::new();
                first.push(q);
                let mut shares: Vec<SourceShare<Q>> = Vec::new();
                shares.push(SourceShare { file: record.source_file, quantities: first });
                let group = ItemGroup {
                    key_name: name_key,
                    key_unit: unit_key,
                    stt: record.stt,
                    don_vi: record.don_vi,
                    ten_cong_viec: record.ten_cong_viec,
                    quantities: amounts,
                    sources: shares,
                };
                assert(group@.sources =~= seq![(r.source_file, seq![q])]);
                assert(group@.quantities =~= seq![q]);
                let ghost old_groups = self.groups@;
                let ghost old_index = index_entries(self.index);
                self.groups.push(group);
                index_insert(&mut self.index, probe, pos);
                assert(groups_view(self.groups) =~= add_record(g0, r));
                proof {
                    assert(!old_index.dom().contains(k)) by {
                        if old_index.dom().contains(k) {
                            let w = choose|w: int| 0 <= w < old_groups.len() && #[trigger] group_key(old_groups[w]) == k;
                            assert(g0[w] == old_groups[w]@);
                        }
                    }
                    assert(group_key(self.groups@[pos as int]) == k);
                    assert forall|a: int| 0 <= a < old_groups.len() implies group_key(#[trigger] self.groups@[a]) == group_key(old_groups[a]) && group_key(old_groups[a]) != k by {
                        assert(old_index.dom().contains(group_key(old_groups[a])));
                    }
                    assert forall|a: int| 0 <= a < self@.len() implies sources_distinct(#[trigger] self@[a].sources) by {
                        assert(self@[a] == self.groups@[a]@);
                        if a < g0.len() {
                            assert(g0[a] == old_groups[a]@);
                        } else {
                            assert(self@[a].sources =~= seq![(r.source_file, seq![q])]);
                        }
                    }
                    assert forall|a: int, b: int| 0 <= a < b < self@.len() implies (#[trigger] self@[a]).key != (#[trigger] self@[b]).key by {
                        assert(self@[a] == self.groups@[a]@);
                        assert(self@[b] == self.groups@[b]@);
                        if b < g0.len() {
                            assert(g0[a].key != g0[b].key);
                            assert(g0[a] == old_groups[a]@);
                            assert(g0[b] == old_groups[b]@);
                        }
                    }
                    assert forall|k2: KeyView| #[trigger] index_entries(self.index).dom().contains(k2) <==> exists|w: int| 0 <= w < self.groups@.len() && #[trigger] group_key(self.groups@[w]) == k2 by {
                        if index_entries(self.index).dom().contains(k2) && k2 != k {
                            let w = choose|w: int| 0 <= w < old_groups.len() && #[trigger] group_key(old_groups[w]) == k2;
                            assert(group_key(self.groups@[w]) == k2);
                        }
                        if exists|w: int| 0 <= w < self.groups@.len() && #[trigger] group_key(self.groups@[w]) == k2 {
                            let w = choose|w: int| 0 <= w < self.groups@.len() && #[trigger] group_key(self.groups@[w]) == k2;
                            if w < old_groups.len() {
                                assert(group_key(old_groups[w]) == k2);
                            }
                        }
                    }
                    assert forall|a: int| 0 <= a < self.groups@.len() implies index_entries(self.index)[#[trigger] group_key(self.groups@[a])] == a by {
                        if a < old_groups.len() {
                            assert(group_key(self.groups@[a]) == group_key(old_groups[a]));
                        }
                    }
                }
            },
        }
    }
}

impl<Q: Copy> Table<Q> {
    /// Adds the records in order.
    fn add_records(&mut self, records: Vec<ExcelRecord<Q>>)
        requires
            old(self).wf(),
        ensures
            final(self).wf(),
            final(self)@ == aggregate(old(self)@, records_view(records)),
    {
        let ghost g0 = self@;
        let ghost rv = records_view(records);
        for record in it: records
            invariant
                self.wf(),
                rv == it.seq().map_values(|x: ExcelRecord<Q>| x@),
                self@ == aggregate(g0, rv.take(it.index() as int)),
        {
            let ghost before = self@;
            let ghost i = it.index() as int;
            assert(rv.take(i + 1).drop_last() =~= rv.take(i));
            assert(rv[i] == record@);
            self.add_record(record);
        }
        assert(rv.take(rv.len() as int) =~= rv);
    }

    /// The consolidated items, in the order their first record came.
    fn get_final_results(&self) -> (r: Vec<ItemGroup<Q>>)
        ensures
            groups_view(r) == self@,
    {
        let mut out: Vec<ItemGroup<Q>> = Vec::new();
        let mut i: usize = 0;
        while i < self.groups.len()
            invariant
                i <= self.groups.len(),
                out@.len() == i,
                forall|k: int| 0 <= k < i ==> (#[trigger] out@[k])@ == self.groups@[k]@,
            decreases self.groups.len() - i,
        {
            out.push(self.groups[i].copy());
            i = i + 1;
        }
        assert(groups_view(out) =~= self@);
        out
    }
}

impl<Q: Copy> SourceShare<Q> {
    fn copy(&self) -> (r: SourceShare<Q>)
        ensures
            share_view(r) == share_view(*self),
    {
        SourceShare { file: self.file.clone(), quantities: copy_amounts(&self.quantities) }
    }
}

fn copy_amounts<Q: Copy>(v: &Vec<Option<Q>>) -> (r: Vec<Option<Q>>)
    ensures
        r@ == v@,
{
    let mut out: Vec<Option<Q>> = Vec::new();
    let mut i: usize = 0;
    while i < v.len()
        invariant
            i <= v.len(),
            out@ == v@.take(i as int),
        decreases v.len() - i,
    {
        out.push(v[i]);
        i = i + 1;
        assert(out@ =~= v@.take(i as int));
    }
    assert(v@.take(i as int) =~= v@);
    out
}

impl<Q: Copy> ItemGroup<Q> {
    pub fn copy(&self) -> (r: ItemGroup<Q>)
        ensures
            r@ == self@,
    {
        let mut shares: Vec<SourceShare<Q>> = Vec::new();
        let mut j: usize = 0;
        while j < self.sources.len()
            invariant
                j <= self.sources.len(),
                shares@.len() == j,
                forall|k: int| 0 <= k < j ==> share_view(#[trigger] shares@[k]) == share_view(self.sources@[k]),
            decreases self.sources.len() - j,
        {
            shares.push(self.sources[j].copy());
            j = j + 1;
        }
        let r = ItemGroup {
            key_name: self.key_name.clone(),
            key_unit: self.key_unit.clone(),
            stt: self.stt.clone(),
            don_vi: self.don_vi.clone(),
            ten_cong_viec: self.ten_cong_viec.clone(),
            quantities: copy_amounts(&self.quantities),
            sources: shares,
        };
        assert(r@.sources =~= self@.sources);
        r
    }
}

/// Consolidates records into items keyed by normalized name and unit.
pub struct Aggregator<Q> {
    table: Table<Q>,
}

impl<Q> Aggregator<Q> {
    #[verifier::type_invariant]
    spec fn table_is_consistent(self) -> bool {
        self.table.wf()
    }

    /// The consolidated items, in the order their first record came.
    pub closed spec fn view(&self) -> Seq<GroupView<Q>> {
        self.table.view()
    }
}

impl<Q: Copy> Aggregator<Q> {
    pub fn new() -> (a: Aggregator<Q>)
        ensures
            a@ == Seq::<GroupView<Q>>::empty(),
    {
        Aggregator { table: Table::new() }
    }

    /// Adds one record to the item of its key, or as a new item.
    pub fn add_record(&mut self, record: ExcelRecord<Q>)
        ensures
            final(self)@ == add_record(old(self)@, record@),
    {
        proof {
            use_type_invariant(&*self);
        }
        let mut table = Table::new();
        std::mem::swap(&mut table, &mut self.table);
        table.add_record(record);
        self.table = table;
    }

    /// Adds the records in order.
    pub fn add_records(&mut self, records: Vec<ExcelRecord<Q>>)
        ensures
            final(self)@ == aggregate(old(self)@, records_view(records)),
    {
        proof {
            use_type_invariant(&*self);
        }
        let mut table = Table::new();
        std::mem::swap(&mut table, &mut self.table);
        table.add_records(records);
        self.table = table;
    }

    /// The consolidated items, in the order their first record came.
    pub fn get_final_results(&self) -> (r: Vec<ItemGroup<Q>>)
        ensures
            groups_view(r) == self@,
    {
        self.table.get_final_results()
    }
}

// ---------------------------------------------------------------------------
// Laws

/// Adding records in two batches gives the same items as adding them all
/// at once.
pub proof fn law_aggregate_in_batches<Q>(
    g: Seq<GroupView<Q>>,
    a: Seq<RecordView<Q>>,
    b: Seq<RecordView<Q>>,
)
    ensures
        aggregate(aggregate(g, a), b) == aggregate(g, a + b),
    decreases b.len(),
{
    if b.len() == 0 {
        assert(a + b =~= a);
    } else {
        law_aggregate_in_batches(g, a, b.drop_last());
        assert((a + b).drop_last() =~= a + b.drop_last());
        assert((a + b).last() == b.last());
    }
}

/// The quantities of the records with key `k`, in order.
pub open spec fn quantities_with_key<Q>(recs: Seq<RecordView<Q>>, k: KeyView) -> Seq<Option<Q>>
    decreases recs.len(),
{
    if recs.len() == 0 {
        seq![]
    } else if record_key(recs.last()) == k {
        quantities_with_key(recs.drop_last(), k).push(amount(recs.last()))
    } else {
        quantities_with_key(recs.drop_last(), k)
    }
}

/// The quantities of the records with key `k` from source file `f`, in
/// order.
pub open spec fn quantities_from<Q>(recs: Seq<RecordView<Q>>, k: KeyView, f: Seq<char>) -> Seq<
    Option<Q>,
>
    decreases recs.len(),
{
    if recs.len() == 0 {
        seq![]
    } else if record_key(recs.last()) == k && recs.last().source_file == f {
        quantities_from(recs.drop_last(), k, f).push(amount(recs.last()))
    } else {
        quantities_from(recs.drop_last(), k, f)
    }
}

/// The first record with key `k`.
pub open spec fn first_with_key<Q>(recs: Seq<RecordView<Q>>, k: KeyView) -> Option<RecordView<Q>>
    decreases recs.len(),
{
    if recs.len() == 0 {
        None
    } else {
        match first_with_key(recs.drop_last(), k) {
            Some(x) => Some(x),
            None => if record_key(recs.last()) == k {
                Some(recs.last())
            } else {
                None
            },
        }
    }
}

pub open spec fn has_group<Q>(g: Seq<GroupView<Q>>, k: KeyView) -> bool {
    exists|i: int| 0 <= i < g.len() && (#[trigger] g[i]).key == k
}

pub open spec fn has_source<Q>(g: GroupView<Q>, f: Seq<char>) -> bool {
    exists|s: int| 0 <= s < g.sources.len() && (#[trigger] g.sources[s]).0 == f
}

/// The items account for the records exactly: no two items share a key
/// and no item lists a file twice; an item exists for a key exactly when a
/// record has it; each item holds the quantities of the records of its key,
/// in order, and per file those of that file; its item number, unit and
/// name are those of its first record.
pub open spec fn accounts_for<Q>(g: Seq<GroupView<Q>>, recs: Seq<RecordView<Q>>) -> bool {
    &&& groups_distinct(g)
    &&& forall|k: KeyView| #[trigger] has_group(g, k) <==> first_with_key(recs, k) is Some
    &&& forall|k: KeyView| #[trigger] quantities_with_key(recs, k).len() > 0 <==> first_with_key(recs, k) is Some
    &&& forall|i: int| 0 <= i < g.len() ==> (#[trigger] g[i]).quantities == quantities_with_key(recs, g[i].key)
    &&& forall|i: int|
        0 <= i < g.len() ==> match first_with_key(recs, (#[trigger] g[i]).key) {
            Some(x) => x.stt == g[i].stt && x.don_vi == g[i].don_vi && x.ten_cong_viec == g[i].ten_cong_viec,
            None => false,
        }
    &&& forall|i: int, s: int|
        0 <= i < g.len() && 0 <= s < g[i].sources.len() ==> (#[trigger] g[i].sources[s]).1
            == quantities_from(recs, g[i].key, g[i].sources[s].0)
    &&& forall|i: int, f: Seq<char>|
        0 <= i < g.len() && #[trigger] quantities_from(recs, g[i].key, f).len() > 0 ==> has_source(
            g[i],
            f,
        )
}

proof fn lemma_find_group<Q>(g: Seq<GroupView<Q>>, k: KeyView)
    ensures
        match find_group(g, k) {
            Some(i) => 0 <= i < g.len() && g[i].key == k,
            None => !has_group(g, k),
        },
{
    lemma_first_index_range(0, g.len() as int, group_key_pred(g, k));
    if find_group(g, k) is None && has_group(g, k) {
        let i = choose|i: int| 0 <= i < g.len() && (#[trigger] g[i]).key == k;
        assert(group_key_pred(g, k)(i));
    }
}

proof fn lemma_find_source<Q>(g: GroupView<Q>, f: Seq<char>)
    ensures
        match find_source(g.sources, f) {
            Some(s) => 0 <= s < g.sources.len() && g.sources[s].0 == f,
            None => !has_source(g, f),
        },
{
    lemma_first_index_range(0, g.sources.len() as int, source_pred(g.sources, f));
    if find_source(g.sources, f) is None && has_source(g, f) {
        let s = choose|s: int| 0 <= s < g.sources.len() && (#[trigger] g.sources[s]).0 == f;
        assert(source_pred(g.sources, f)(s));
    }
}

proof fn lemma_from_within_key<Q>(recs: Seq<RecordView<Q>>, k: KeyView, f: Seq<char>)
    ensures
        quantities_from(recs, k, f).len() > 0 ==> quantities_with_key(recs, k).len() > 0,
    decreases recs.len(),
{
    if recs.len() > 0 {
        lemma_from_within_key(recs.drop_last(), k, f);
    }
}

proof fn lemma_accounts_step<Q>(g: Seq<GroupView<Q>>, recs: Seq<RecordView<Q>>, r: RecordView<Q>)
    requires
        accounts_for(g, recs),
    ensures
        accounts_for(add_record(g, r), recs.push(r)),
{
    let k = record_key(r);
    let f = r.source_file;
    let q = amount(r);
    let recs2 = recs.push(r);
    let g2 = add_record(g, r);
    assert(recs2.drop_last() =~= recs);
    assert(recs2.last() == r);
    lemma_find_group(g, k);
    match find_group(g, k) {
        Some(i0) => {
            let old_g = g[i0];
            let new_g = add_to_group(old_g, f, q);
            assert(g2 == g.update(i0, new_g));
            lemma_find_source(old_g, f);
            assert(first_with_key(recs, k) is Some);
            assert forall|a: int, b: int| 0 <= a < b < g2.len() implies (#[trigger] g2[a]).key != (#[trigger] g2[b]).key by {
                assert(g[a].key != g[b].key);
            }
            assert forall|a: int| 0 <= a < g2.len() implies sources_distinct(#[trigger] g2[a].sources) by {
                assert(sources_distinct(g[a].sources));
                if a == i0 {
                    match find_source(old_g.sources, f) {
                        Some(s0) => {
                            assert forall|x: int, y: int| 0 <= x < y < new_g.sources.len() implies (#[trigger] new_g.sources[x]).0 != (#[trigger] new_g.sources[y]).0 by {
                                assert(old_g.sources[x].0 != old_g.sources[y].0);
                            }
                        },
                        None => {
                            assert forall|x: int, y: int| 0 <= x < y < new_g.sources.len() implies (#[trigger] new_g.sources[x]).0 != (#[trigger] new_g.sources[y]).0 by {
                                if y < old_g.sources.len() {
                                    assert(old_g.sources[x].0 != old_g.sources[y].0);
                                } else {
                                    assert(old_g.sources[x] == new_g.sources[x]);
                                }
                            }
                        },
                    }
                }
            }
            assert forall|k2: KeyView| #[trigger] has_group(g2, k2) <==> first_with_key(recs2, k2) is Some by {
                if has_group(g2, k2) {
                    let w = choose|w: int| 0 <= w < g2.len() && (#[trigger] g2[w]).key == k2;
                    assert(g[w].key == k2);
                    assert(has_group(g, k2));
                }
                if first_with_key(recs2, k2) is Some {
                    if k2 == k {
                        assert(g2[i0].key == k);
                    } else {
                        assert(first_with_key(recs, k2) is Some);
                        assert(has_group(g, k2));
                        let w = choose|w: int| 0 <= w < g.len() && (#[trigger] g[w]).key == k2;
                        assert(g2[w].key == k2);
                    }
                }
            }
            assert forall|k2: KeyView| #[trigger] quantities_with_key(recs2, k2).len() > 0 <==> first_with_key(recs2, k2) is Some by {
                assert(quantities_with_key(recs, k2).len() > 0 <==> first_with_key(recs, k2) is Some);
            }
            assert forall|a: int| 0 <= a < g2.len() implies (#[trigger] g2[a]).quantities == quantities_with_key(recs2, g2[a].key) by {
                assert(g[a].quantities == quantities_with_key(recs, g[a].key));
            }
            assert forall|a: int| 0 <= a < g2.len() implies match first_with_key(recs2, (#[trigger] g2[a]).key) {
                Some(x) => x.stt == g2[a].stt && x.don_vi == g2[a].don_vi && x.ten_cong_viec == g2[a].ten_cong_viec,
                None => false,
            } by {
                assert(g2[a].key == g[a].key);
                match first_with_key(recs, g[a].key) {
                    Some(x) => {},
                    None => {},
                }
            }
            assert forall|a: int, s: int| 0 <= a < g2.len() && 0 <= s < g2[a].sources.len() implies (#[trigger] g2[a].sources[s]).1 == quantities_from(recs2, g2[a].key, g2[a].sources[s].0) by {
                if a == i0 {
                    match find_source(old_g.sources, f) {
                        Some(s0) => {
                            assert(sources_distinct(old_g.sources));
                            if s != s0 {
                                assert(old_g.sources[s].0 != old_g.sources[s0].0);
                            }
                        },
                        None => {
                            if s == old_g.sources.len() {
                                lemma_from_within_key(recs, k, f);
                                if quantities_from(recs, k, f).len() > 0 {
                                    assert(has_source(g[i0], f));
                                }
                            }
                        },
                    }
                } else {
                    assert(g2[a] == g[a]);
                }
            }
            assert forall|a: int, f2: Seq<char>| 0 <= a < g2.len() && #[trigger] quantities_from(recs2, g2[a].key, f2).len() > 0 implies has_source(g2[a], f2) by {
                if a == i0 {
                    match find_source(old_g.sources, f) {
                        Some(s0) => {
                            if f2 == f {
                                assert(g2[a].sources[s0].0 == f2);
                            } else {
                                assert(quantities_from(recs, k, f2).len() > 0);
                                assert(has_source(g[a], f2));
                                let w = choose|w: int| 0 <= w < g[a].sources.len() && (#[trigger] g[a].sources[w]).0 == f2;
                                assert(g2[a].sources[w].0 == f2);
                            }
                        },
                        None => {
                            if f2 == f {
                                assert(g2[a].sources[old_g.sources.len() as int].0 == f2);
                            } else {
                                assert(quantities_from(recs, k, f2).len() > 0);
                                assert(has_source(g[a], f2));
                                let w = choose|w: int| 0 <= w < g[a].sources.len() && (#[trigger] g[a].sources[w]).0 == f2;
                                assert(g2[a].sources[w].0 == f2);
                            }
                        },
                    }
                } else {
                    assert(g2[a] == g[a]);
                    assert(g[a].key != k);
                    assert(quantities_from(recs, g[a].key, f2).len() > 0);
                }
            }
        },
        None => {
            let n = g.len() as int;
            assert(first_with_key(recs, k) is None);
            assert(quantities_with_key(recs, k).len() == 0);
            assert(g2[n].key == k);
            assert forall|a: int, b: int| 0 <= a < b < g2.len() implies (#[trigger] g2[a]).key != (#[trigger] g2[b]).key by {
                if b < n {
                    assert(g[a].key != g[b].key);
                } else {
                    assert(g2[a] == g[a]);
                }
            }
            assert forall|a: int| 0 <= a < g2.len() implies sources_distinct(#[trigger] g2[a].sources) by {
                if a < n {
                    assert(g2[a] == g[a]);
                }
            }
            assert forall|k2: KeyView| #[trigger] has_group(g2, k2) <==> first_with_key(recs2, k2) is Some by {
                if has_group(g2, k2) {
                    let w = choose|w: int| 0 <= w < g2.len() && (#[trigger] g2[w]).key == k2;
                    if w < n {
                        assert(g[w].key == k2);
                        assert(has_group(g, k2));
                    }
                }
                if first_with_key(recs2, k2) is Some {
                    if k2 == k {
                        assert(g2[n].key == k);
                    } else {
                        assert(first_with_key(recs, k2) is Some);
                        assert(has_group(g, k2));
                        let w = choose|w: int| 0 <= w < g.len() && (#[trigger] g[w]).key == k2;
                        assert(g2[w].key == k2);
                    }
                }
            }
            assert forall|k2: KeyView| #[trigger] quantities_with_key(recs2, k2).len() > 0 <==> first_with_key(recs2, k2) is Some by {
                assert(quantities_with_key(recs, k2).len() > 0 <==> first_with_key(recs, k2) is Some);
            }
            assert forall|a: int| 0 <= a < g2.len() implies (#[trigger] g2[a]).quantities == quantities_with_key(recs2, g2[a].key) by {
                if a < n {
                    assert(g2[a] == g[a]);
                    assert(g[a].quantities == quantities_with_key(recs, g[a].key));
                } else {
                    assert(quantities_with_key(recs2, k) =~= seq![q]);
                }
            }
            assert forall|a: int| 0 <= a < g2.len() implies match first_with_key(recs2, (#[trigger] g2[a]).key) {
                Some(x) => x.stt == g2[a].stt && x.don_vi == g2[a].don_vi && x.ten_cong_viec == g2[a].ten_cong_viec,
                None => false,
            } by {
                if a < n {
                    assert(g2[a] == g[a]);
                    match first_with_key(recs, g[a].key) {
                        Some(x) => {},
                        None => {},
                    }
                }
            }
            assert forall|a: int, s: int| 0 <= a < g2.len() && 0 <= s < g2[a].sources.len() implies (#[trigger] g2[a].sources[s]).1 == quantities_from(recs2, g2[a].key, g2[a].sources[s].0) by {
                if a < n {
                    assert(g2[a] == g[a]);
                } else {
                    lemma_from_within_key(recs, k, f);
                    assert(quantities_from(recs2, k, f) =~= seq![q]);
                }
            }
            assert forall|a: int, f2: Seq<char>| 0 <= a < g2.len() && #[trigger] quantities_from(recs2, g2[a].key, f2).len() > 0 implies has_source(g2[a], f2) by {
                if a < n {
                    assert(g2[a] == g[a]);
                    assert(quantities_from(recs, g[a].key, f2).len() > 0);
                } else {
                    lemma_from_within_key(recs, k, f2);
                    assert(g2[a].sources[0].0 == f);
                }
            }
        },
    }
}

/// Consolidating records from nothing accounts for every record exactly
/// (see `accounts_for`): nothing is lost, nothing counted twice, and each
/// item keeps the first item number, unit and name of its key.
pub proof fn law_aggregate_accounts_for_records<Q>(recs: Seq<RecordView<Q>>)
    ensures
        accounts_for(aggregate(seq![], recs), recs),
    decreases recs.len(),
{
    if recs.len() == 0 {
        let g = aggregate(Seq::<GroupView<Q>>::empty(), recs);
        assert forall|k: KeyView| #[trigger] has_group(g, k) <==> first_with_key(recs, k) is Some by {}
    } else {
        law_aggregate_accounts_for_records(recs.drop_last());
        lemma_accounts_step(aggregate(seq![], recs.drop_last()), recs.drop_last(), recs.last());
        assert(recs.drop_last().push(recs.last()) =~= recs);
    }
}

/// The quantities of the records whose normalized name is `name` and whose
/// normalized unit is `unit`, in order.
pub open spec fn amounts_named<Q>(recs: Seq<RecordView<Q>>, name: Seq<char>, unit: Seq<char>) -> Seq<
    Option<Q>,
>
    decreases recs.len(),
{
    if recs.len() == 0 {
        seq![]
    } else if normalized(true, recs.last().ten_cong_viec) == name && normalized(
        true,
        recs.last().don_vi,
    ) == unit {
        amounts_named(recs.drop_last(), name, unit).push(amount(recs.last()))
    } else {
        amounts_named(recs.drop_last(), name, unit)
    }
}

/// The quantities of the records from file `file` whose normalized name is
/// `name` and whose normalized unit is `unit`, in order.
pub open spec fn amounts_named_from<Q>(
    recs: Seq<RecordView<Q>>,
    name: Seq<char>,
    unit: Seq<char>,
    file: Seq<char>,
) -> Seq<Option<Q>>
    decreases recs.len(),
{
    if recs.len() == 0 {
        seq![]
    } else if normalized(true, recs.last().ten_cong_viec) == name && normalized(
        true,
        recs.last().don_vi,
    ) == unit && recs.last().source_file == file {
        amounts_named_from(recs.drop_last(), name, unit, file).push(amount(recs.last()))
    } else {
        amounts_named_from(recs.drop_last(), name, unit, file)
    }
}

proof fn lemma_quantities_named<Q>(recs: Seq<RecordView<Q>>, k: KeyView)
    ensures
        quantities_with_key(recs, k) == amounts_named(recs, k.0, k.1),
    decreases recs.len(),
{
    if recs.len() > 0 {
        lemma_quantities_named(recs.drop_last(), k);
    }
}

proof fn lemma_quantities_named_from<Q>(recs: Seq<RecordView<Q>>, k: KeyView, f: Seq<char>)
    ensures
        quantities_from(recs, k, f) == amounts_named_from(recs, k.0, k.1, f),
    decreases recs.len(),
{
    if recs.len() > 0 {
        lemma_quantities_named_from(recs.drop_last(), k, f);
    }
}

proof fn lemma_first_with_key_has_key<Q>(recs: Seq<RecordView<Q>>, k: KeyView)
    ensures
        match first_with_key(recs, k) {
            Some(x) => record_key(x) == k,
            None => true,
        },
    decreases recs.len(),
{
    if recs.len() > 0 {
        lemma_first_with_key_has_key(recs.drop_last(), k);
    }
}

proof fn lemma_first_with_key_found<Q>(recs: Seq<RecordView<Q>>, j: int)
    requires
        0 <= j < recs.len(),
    ensures
        first_with_key(recs, record_key(recs[j])) is Some,
    decreases recs.len(),
{
    if j < recs.len() - 1 {
        lemma_first_with_key_found(recs.drop_last(), j);
        assert(recs.drop_last()[j] == recs[j]);
    }
}

/// Consolidating records keys each item by the normalized name and the
/// normalized unit of its first record, and gives it the quantities of
/// exactly the records whose normalized name and normalized unit are those
/// of the key, in order, and per file those of that file: records whose
/// normalized names or units differ never share an item. Every record has
/// an item, and no two items share a key.
pub proof fn law_items_keyed_by_name_and_unit<Q>(recs: Seq<RecordView<Q>>)
    ensures
        forall|i: int|
            0 <= i < aggregate(seq![], recs).len() ==> (#[trigger] aggregate(seq![], recs)[i]).key == (
                normalized(true, aggregate(seq![], recs)[i].ten_cong_viec),
                normalized(true, aggregate(seq![], recs)[i].don_vi),
            ),
        forall|i: int|
            0 <= i < aggregate(seq![], recs).len() ==> (#[trigger] aggregate(seq![], recs)[i]).quantities
                == amounts_named(
                recs,
                aggregate(seq![], recs)[i].key.0,
                aggregate(seq![], recs)[i].key.1,
            ),
        forall|i: int, s: int|
            0 <= i < aggregate(seq![], recs).len() && 0 <= s < aggregate(seq![], recs)[i].sources.len()
                ==> (#[trigger] aggregate(seq![], recs)[i].sources[s]).1 == amounts_named_from(
                recs,
                aggregate(seq![], recs)[i].key.0,
                aggregate(seq![], recs)[i].key.1,
                aggregate(seq![], recs)[i].sources[s].0,
            ),
        forall|j: int|
            0 <= j < recs.len() ==> exists|i: int|
                0 <= i < aggregate(seq![], recs).len() && (#[trigger] aggregate(seq![], recs)[i]).key == (
                    normalized(true, (#[trigger] recs[j]).ten_cong_viec),
                    normalized(true, recs[j].don_vi),
                ),
        forall|a: int, b: int|
            0 <= a < b < aggregate(seq![], recs).len() ==> (#[trigger] aggregate(seq![], recs)[a]).key
                != (#[trigger] aggregate(seq![], recs)[b]).key,
{
    let g = aggregate(seq![], recs);
    law_aggregate_accounts_for_records(recs);
    assert forall|i: int| 0 <= i < g.len() implies (#[trigger] g[i]).key == (
        normalized(true, g[i].ten_cong_viec),
        normalized(true, g[i].don_vi),
    ) by {
        lemma_first_with_key_has_key(recs, g[i].key);
        match first_with_key(recs, g[i].key) {
            Some(x) => {},
            None => {},
        }
    }
    assert forall|i: int| 0 <= i < g.len() implies (#[trigger] g[i]).quantities == amounts_named(
        recs,
        g[i].key.0,
        g[i].key.1,
    ) by {
        lemma_quantities_named(recs, g[i].key);
    }
    assert forall|i: int, s: int| 0 <= i < g.len() && 0 <= s < g[i].sources.len() implies (
    #[trigger] g[i].sources[s]).1 == amounts_named_from(recs, g[i].key.0, g[i].key.1, g[i].sources[s].0) by {
        lemma_quantities_named_from(recs, g[i].key, g[i].sources[s].0);
    }
    assert forall|j: int| 0 <= j < recs.len() implies exists|i: int|
        0 <= i < g.len() && (#[trigger] g[i]).key == (
            normalized(true, (#[trigger] recs[j]).ten_cong_viec),
            normalized(true, recs[j].don_vi),
        ) by {
        lemma_first_with_key_found(recs, j);
        assert(has_group(g, record_key(recs[j])));
    }
}

} // verus!
