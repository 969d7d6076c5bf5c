//! The staged contract builder.
//!
//! A [`ContractBuilder`] carries one [`MetadataRecord`] through a fixed
//! workflow whose stage is part of the builder's type: `Init` accepts author
//! annotations, `validate` moves to `Validated`, `on_deploy` runs a one-shot
//! hook and moves to `Deployed`, and only the `Deployed` stage hands the
//! record out. Each transition consumes the previous handle, so an operation
//! of an earlier stage cannot be called once the stage has advanced.
//!
//! The record has one canonical owner: the builder holds it, mutates it
//! only through `&mut` — so overlapping writers cannot exist — and counts
//! the co-owning handles it has handed out. A handle carries its own copy of
//! the record as of the moment it was taken; while any handle is
//! outstanding, `into_inner` refuses to pretend exclusive ownership and
//! yields the empty record instead.

use core::marker::PhantomData;
use vstd::prelude::*;

use crate::record::MetadataRecord;

verus! {

/// Stage marker: the builder is freshly created and accepts annotations.
pub struct Init;

/// Stage marker: the record has been validated.
pub struct Validated;

/// The terminal stage. Besides marking a deployed builder's type, this is the
/// sealed form of a finished contract, as `into_deployed` returns it.
pub struct Deployed {
    name: String,
    record: MetadataRecord,
}

impl Deployed {
    /// The contract name.
    pub closed spec fn name_view(self) -> Seq<char> {
        self.name@
    }

    /// The finished metadata mapping.
    pub closed spec fn record_view(self) -> Map<Seq<char>, Seq<char>> {
        self.record@
    }

    /// The contract name.
    pub fn name(&self) -> (r: &str)
        ensures
            r@ == self.name_view(),
    {
        self.name.as_str()
    }

    /// The finished metadata record.
    pub fn record(&self) -> (r: &MetadataRecord)
        ensures
            r@ == self.record_view(),
    {
        &self.record
    }
}

/// A co-owning handle on a deployed contract's metadata, as `registry` and
/// `metadata` return it. `registry` moves the canonical record in;
/// `metadata` gives the handle its own copy of the record as of the moment
/// the handle was taken, and the builder goes on counting it as outstanding.
pub struct RegistryHandle {
    record: MetadataRecord,
}

impl RegistryHandle {
    /// The metadata mapping this handle carries.
    pub closed spec fn record_view(self) -> Map<Seq<char>, Seq<char>> {
        self.record@
    }

    /// The metadata record this handle carries.
    pub fn record(&self) -> (r: &MetadataRecord)
        ensures
            r@ == self.record_view(),
    {
        &self.record
    }
}

/// A contract metadata builder in stage `Stage`: the immutable contract
/// name, the metadata record it owns, and how many registry handles it has
/// handed out.
pub struct ContractBuilder<Stage> {
    name: String,
    record: MetadataRecord,
    shares: usize,
    stage: PhantomData<Stage>,
}

impl<Stage> ContractBuilder<Stage> {
    /// The immutable contract name.
    pub closed spec fn name_view(self) -> Seq<char> {
        self.name@
    }

    /// The metadata mapping the builder owns.
    pub closed spec fn record_view(self) -> Map<Seq<char>, Seq<char>> {
        self.record@
    }

    /// How many registry handles are outstanding.
    pub closed spec fn share_count(self) -> nat {
        self.shares as nat
    }
}

impl ContractBuilder<Init> {
    /// A fresh builder: the given name, an empty record, no handles out.
    pub fn new(name: &str) -> (r: ContractBuilder<Init>)
        ensures
            r.name_view() == name@,
            r.record_view() == Map::<Seq<char>, Seq<char>>::empty(),
            r.share_count() == 0,
    {
        ContractBuilder {
            name: name.to_owned(),
            record: MetadataRecord::new(),
            shares: 0,
            stage: PhantomData,
        }
    }

    /// Binds the "author" key to author: a later call wins over an earlier.
    pub fn with_author(self, author: &str) -> (r: ContractBuilder<Init>)
        ensures
            r.record_view() == self.record_view().insert("author"@, author@),
            r.name_view() == self.name_view(),
            r.share_count() == self.share_count(),
    {
        let mut b = self;
        b.record.insert("author".to_owned(), author.to_owned());
        b
    }

    /// Marks the record validated and moves to the `Validated` stage,
    /// consuming the `Init` handle: the key "validated" is bound to exactly
    /// "true" afterwards.
    pub fn validate(self) -> (r: ContractBuilder<Validated>)
        ensures
            r.record_view() == self.record_view().insert("validated"@, "true"@),
            r.record_view()["validated"@] == "true"@,
            r.name_view() == self.name_view(),
            r.share_count() == self.share_count(),
    {
        let mut record = self.record;
        record.insert("validated".to_owned(), "true".to_owned());
        ContractBuilder { name: self.name, record, shares: self.shares, stage: PhantomData }
    }
}

impl ContractBuilder<Validated> {
    /// Binds "status" to "deployed", then hands the record to the one-shot
    /// hook, whose output becomes the deployed builder's record.
    pub fn on_deploy<F: FnOnce(MetadataRecord) -> MetadataRecord>(self, hook: F) -> (r:
        ContractBuilder<Deployed>)
        requires
            forall|m: MetadataRecord|
                m@ == self.record_view().insert("status"@, "deployed"@) ==> call_requires(
                    hook,
                    (m,),
                ),
        ensures
            r.name_view() == self.name_view(),
            r.share_count() == self.share_count(),
            exists|m: MetadataRecord, out: MetadataRecord|
                m@ == self.record_view().insert("status"@, "deployed"@) && call_ensures(
                    hook,
                    (m,),
                    out,
                ) && r.record_view() == out@,
    {
        let mut record = self.record;
        record.insert("status".to_owned(), "deployed".to_owned());
        let ghost mid = record;
        let out = hook(record);
        proof {
            assert(call_ensures(hook, (mid,), out));
        }
        ContractBuilder { name: self.name, record: out, shares: self.shares, stage: PhantomData }
    }
}

impl ContractBuilder<Deployed> {
    /// Consumes the builder and moves the canonical record into a handle.
    pub fn registry(self) -> (r: RegistryHandle)
        ensures
            r.record_view() == self.record_view(),
    {
        RegistryHandle { record: self.record }
    }

    /// The immutable contract name.
    pub fn name(&self) -> (r: &str)
        ensures
            r@ == self.name_view(),
    {
        self.name.as_str()
    }

    /// Hands out one more co-owning handle, carrying a copy of the record as
    /// it stands now; the builder counts it as outstanding from here on.
    pub fn metadata(&mut self) -> (r: RegistryHandle)
        requires
            old(self).share_count() < usize::MAX,
        ensures
            r.record_view() == old(self).record_view(),
            final(self).record_view() == old(self).record_view(),
            final(self).name_view() == old(self).name_view(),
            final(self).share_count() == old(self).share_count() + 1,
    {
        self.shares = self.shares + 1;
        RegistryHandle { record: self.record.clone() }
    }

    /// Read access to the record.
    pub fn borrow(&self) -> (r: &MetadataRecord)
        ensures
            r@ == self.record_view(),
    {
        &self.record
    }

    /// Exclusive write access to the record: what the caller does through the
    /// returned reference is what the builder holds afterwards. Exclusivity
    /// is the borrow itself — no second writer can exist while it lives.
    pub fn borrow_mut(&mut self) -> (r: &mut MetadataRecord)
        ensures
            (*r)@ == old(self).record_view(),
            final(self).record_view() == (*final(r))@,
            final(self).name_view() == old(self).name_view(),
            final(self).share_count() == old(self).share_count(),
    {
        &mut self.record
    }

    /// Attempts to take the record by exclusive ownership: with no handle
    /// outstanding the full mapping comes out; with any outstanding, the
    /// empty mapping does — exclusive ownership cannot be pretended while a
    /// co-owner may still be live.
    pub fn into_inner(self) -> (r: MetadataRecord)
        ensures
            self.share_count() == 0 ==> r@ == self.record_view(),
            self.share_count() > 0 ==> r@ == Map::<Seq<char>, Seq<char>>::empty(),
    {
        if self.shares == 0 {
            self.record
        } else {
            MetadataRecord::new()
        }
    }

    /// Seals the builder into the terminal `Deployed` form, keeping the name
    /// and the record.
    pub fn into_deployed(self) -> (r: Deployed)
        ensures
            r.name_view() == self.name_view(),
            r.record_view() == self.record_view(),
    {
        Deployed { name: self.name, record: self.record }
    }
}

/// The mapping after a run of author annotations, applied in order.
pub open spec fn with_authors(
    m: Map<Seq<char>, Seq<char>>,
    authors: Seq<Seq<char>>,
) -> Map<Seq<char>, Seq<char>>
    decreases authors.len(),
{
    if authors.len() == 0 {
        m
    } else {
        with_authors(m, authors.drop_last()).insert("author"@, authors.last())
    }
}

/// Last write wins: after any non-empty run of author annotations, the
/// record binds "author" to the last one written, and no other key changed.
pub proof fn lemma_author_last_write_wins(m: Map<Seq<char>, Seq<char>>, authors: Seq<Seq<char>>)
    requires
        authors.len() > 0,
    ensures
        with_authors(m, authors).contains_key("author"@),
        with_authors(m, authors)["author"@] == authors.last(),
        forall|k: Seq<char>|
            k != "author"@ ==> with_authors(m, authors).contains_key(k) == m.contains_key(k),
        forall|k: Seq<char>|
            k != "author"@ && m.contains_key(k) ==> with_authors(m, authors)[k] == m[k],
    decreases authors.len(),
{
    if authors.len() == 1 {
        assert(with_authors(m, authors.drop_last()) == m);
    } else {
        lemma_author_last_write_wins(m, authors.drop_last());
    }
}

/// The mapping after a run of hook insertions, applied in order.
pub open spec fn with_entries(
    m: Map<Seq<char>, Seq<char>>,
    entries: Seq<(Seq<char>, Seq<char>)>,
) -> Map<Seq<char>, Seq<char>>
    decreases entries.len(),
{
    if entries.len() == 0 {
        m
    } else {
        with_entries(m, entries.drop_last()).insert(entries.last().0, entries.last().1)
    }
}

/// After deployment the "status" key reads exactly "deployed", and every key
/// the hook inserted is present — for any hook that inserts entries and
/// leaves the status key alone.
pub proof fn lemma_deployed_record(
    pre: Map<Seq<char>, Seq<char>>,
    added: Seq<(Seq<char>, Seq<char>)>,
)
    requires
        forall|i: int| 0 <= i < added.len() ==> added[i].0 != "status"@,
    ensures
        with_entries(pre.insert("status"@, "deployed"@), added).contains_key("status"@),
        with_entries(pre.insert("status"@, "deployed"@), added)["status"@] == "deployed"@,
        forall|i: int|
            0 <= i < added.len() ==> with_entries(
                pre.insert("status"@, "deployed"@),
                added,
            ).contains_key(#[trigger] added[i].0),
    decreases added.len(),
{
    if added.len() > 0 {
        let d = added.drop_last();
        assert(forall|j: int| 0 <= j < d.len() ==> d[j] == added[j]);
        lemma_deployed_record(pre, d);
    }
}

/// What a hook wrote last for a key is what the final mapping binds it to:
/// the entry at index i, overwritten by no later entry, gives its key's
/// value.
pub proof fn lemma_deployed_value(
    m: Map<Seq<char>, Seq<char>>,
    added: Seq<(Seq<char>, Seq<char>)>,
    i: int,
)
    requires
        0 <= i < added.len(),
        forall|j: int| i < j < added.len() ==> added[j].0 != added[i].0,
    ensures
        with_entries(m, added).contains_key(added[i].0),
        with_entries(m, added)[added[i].0] == added[i].1,
    decreases added.len(),
{
    if i < added.len() - 1 {
        let d = added.drop_last();
        assert(forall|j: int| 0 <= j < d.len() ==> d[j] == added[j]);
        lemma_deployed_value(m, d, i);
    }
}

} // verus!
