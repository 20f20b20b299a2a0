//! Buckets, and the resource table that holds the open ones.

use vstd::prelude::*;
use wasmtime::component::{Resource, ResourceTable, ResourceTableError};

verus! {

/// The table of live resources that the host shares with every other interface.
#[verifier::external_type_specification]
#[verifier::external_body]
pub struct ExResourceTable(wasmtime::component::ResourceTable);

/// Why the table refused an operation.
#[verifier::external_type_specification]
pub struct ExResourceTableError(wasmtime::component::ResourceTableError);

/// An open bucket.
pub struct Bucket {
    name: String,
}

impl View for Bucket {
    type V = Seq<char>;

    /// The name of the bucket.
    closed spec fn view(&self) -> Seq<char> {
        self.name@
    }
}

impl Bucket {
    /// Makes the bucket of this name.
    pub(crate) fn new(name: String) -> (bucket: Bucket)
        ensures
            bucket@ == name@,
    {
        Bucket { name }
    }

    /// Gives the name of the bucket.
    pub(crate) fn name(&self) -> (name: &str)
        ensures
            name@ == self@,
    {
        self.name.as_str()
    }
}

/// What a guest holds of an open bucket: its index in the resource table.
#[derive(Clone, Copy, Debug, PartialEq, Eq, Structural)]
pub struct BucketHandle {
    pub rep: u32,
}

/// An occupied entry of a resource table.
#[verifier::ext_equal]
pub struct TableEntry {
    /// The name of the bucket that the entry holds, or `None` where it holds a
    /// resource of another type.
    pub bucket: Option<Seq<char>>,
    /// The index of the entry that this one is a child of.
    pub parent: Option<u32>,
    /// The indices of the children of this entry.
    pub children: Set<u32>,
}

/// The entries of a table by index; a free one is `None`.
pub uninterp spec fn table_entries(table: ResourceTable) -> Seq<Option<TableEntry>>;

/// How many entries a table may grow to.
pub uninterp spec fn table_limit(table: ResourceTable) -> usize;

/// The entry of a bucket that nothing is attached to.
pub open spec fn bucket_entry(name: Seq<char>) -> TableEntry {
    TableEntry { bucket: Some(name), parent: None, children: Set::empty() }
}

/// The entry at `rep` is that of the bucket of this name, with nothing attached to it.
pub open spec fn holds(entries: Seq<Option<TableEntry>>, rep: u32, name: Seq<char>) -> bool {
    rep < entries.len() && entries[rep as int] == Some(bucket_entry(name))
}

/// There is an entry at `rep`.
pub open spec fn is_live(entries: Seq<Option<TableEntry>>, rep: u32) -> bool {
    rep < entries.len() && entries[rep as int] is Some
}

/// There is a free entry at `rep`.
pub open spec fn is_free(entries: Seq<Option<TableEntry>>, rep: u32) -> bool {
    rep < entries.len() && entries[rep as int] is None
}

/// The bucket name that a lookup at `rep` finds, or why it finds none.
pub open spec fn found(entries: Seq<Option<TableEntry>>, rep: u32) -> Result<
    Seq<char>,
    ResourceTableError,
> {
    if !is_live(entries, rep) {
        Err(ResourceTableError::NotPresent)
    } else {
        match entries[rep as int]->0.bucket {
            Some(name) => Ok(name),
            None => Err(ResourceTableError::WrongType),
        }
    }
}

/// A new entry finds no place: none is free and the table may not grow.
pub open spec fn is_full(entries: Seq<Option<TableEntry>>, limit: usize) -> bool {
    &&& forall|rep: u32| !is_free(entries, rep)
    &&& entries.len() >= limit || entries.len() > u32::MAX
}

/// `after` is `before` with a bucket of this name added at `rep`: in a free entry
/// where there is one, else at the end.
pub open spec fn is_added(
    before: Seq<Option<TableEntry>>,
    after: Seq<Option<TableEntry>>,
    rep: u32,
    name: Seq<char>,
) -> bool {
    if exists|free: u32| is_free(before, free) {
        is_free(before, rep) && after == before.update(rep as int, Some(bucket_entry(name)))
    } else {
        rep == before.len() && after == before.push(Some(bucket_entry(name)))
    }
}

/// Taking the entry at `rep` out does not break the table: where the entry has a
/// parent and no children of its own, that parent is there and counts it as a child.
pub open spec fn is_detachable(entries: Seq<Option<TableEntry>>, rep: u32) -> bool {
    let entry = entries[rep as int]->0;
    is_live(entries, rep) && entry.children.is_empty() ==> match entry.parent {
        Some(parent) => {
            is_live(entries, parent) && entries[parent as int]->0.children.contains(rep)
        },
        None => true,
    }
}

/// The entries once the one at `rep` has been taken out: its place is free, and
/// its parent, where it had one, no longer counts it.
pub open spec fn without(entries: Seq<Option<TableEntry>>, rep: u32) -> Seq<Option<TableEntry>> {
    let freed = entries.update(rep as int, None);
    match entries[rep as int]->0.parent {
        Some(parent) => {
            let entry = entries[parent as int]->0;
            freed.update(
                parent as int,
                Some(TableEntry { children: entry.children.remove(rep), ..entry }),
            )
        },
        None => freed,
    }
}

/// Why the entry at `rep` cannot be taken out as a bucket, or its name.
pub open spec fn removed(entries: Seq<Option<TableEntry>>, rep: u32) -> Result<
    Seq<char>,
    ResourceTableError,
> {
    if is_live(entries, rep) && !entries[rep as int]->0.children.is_empty() {
        Err(ResourceTableError::HasChildren)
    } else {
        found(entries, rep)
    }
}

/// The text of a table error.
pub open spec fn table_error_message(err: ResourceTableError) -> Seq<char> {
    match err {
        ResourceTableError::Full => "resource table has no free keys"@,
        ResourceTableError::NotPresent => "resource not present"@,
        ResourceTableError::WrongType => "resource is of another type"@,
        ResourceTableError::HasChildren => "resource has children"@,
    }
}

/// `to_string` of `ResourceTableError`, by its `Display`: one fixed text for
/// each of its four variants.
#[verifier::external_body]
pub(crate) fn table_error_text(err: &ResourceTableError) -> (text: String)
    ensures
        text@ == table_error_message(*err),
{
    err.to_string()
}

/// `ResourceTable::push` of a bucket. It fails where no entry is free and the table
/// has as many entries as it may; the table is then unchanged. Else a free
/// entry, or a new one at the end where none is free, holds the bucket, with
/// neither parent nor children, and its index comes back.
#[verifier::external_body]
pub(crate) fn table_push(table: &mut ResourceTable, bucket: Bucket) -> (rep: Result<
    u32,
    ResourceTableError,
>)
    ensures
        table_limit(*final(table)) == table_limit(*old(table)),
        match rep {
            Ok(rep) => {
                &&& !is_full(table_entries(*old(table)), table_limit(*old(table)))
                &&& is_added(
                    table_entries(*old(table)),
                    table_entries(*final(table)),
                    rep,
                    bucket@,
                )
            },
            Err(err) => {
                &&& is_full(table_entries(*old(table)), table_limit(*old(table)))
                &&& err is Full
                &&& table_entries(*final(table)) == table_entries(*old(table))
            },
        },
{
    table.push(bucket).map(|resource| resource.rep())
}

/// `ResourceTable::get` of a bucket: the bucket at the index, `NotPresent` where the
/// table has no entry there, `WrongType` where the entry is no bucket.
#[verifier::external_body]
pub(crate) fn table_get(table: &ResourceTable, rep: u32) -> (bucket: Result<
    &Bucket,
    ResourceTableError,
>)
    ensures
        match bucket {
            Ok(bucket) => found(table_entries(*table), rep) == Ok::<_, ResourceTableError>(
                bucket@,
            ),
            Err(err) => found(table_entries(*table), rep) == Err::<Seq<char>, _>(err),
        },
{
    table.get(&Resource::<Bucket>::new_own(rep))
}

/// `ResourceTable::delete` of a bucket. `NotPresent` and `HasChildren` leave the
/// table as it was. Else the entry is taken out, also where it proves to be
/// no bucket and the answer is `WrongType`. An entry whose parent has gone
/// is left out, for there the call panics.
#[verifier::external_body]
pub(crate) fn table_delete(table: &mut ResourceTable, rep: u32) -> (bucket: Result<
    Bucket,
    ResourceTableError,
>)
    requires
        is_detachable(table_entries(*old(table)), rep),
    ensures
        table_limit(*final(table)) == table_limit(*old(table)),
        match bucket {
            Ok(bucket) => removed(table_entries(*old(table)), rep) == Ok::<_, ResourceTableError>(
                bucket@,
            ),
            Err(err) => removed(table_entries(*old(table)), rep) == Err::<Seq<char>, _>(err),
        },
        table_entries(*final(table)) == (match bucket {
            Err(ResourceTableError::NotPresent) => table_entries(*old(table)),
            Err(ResourceTableError::HasChildren) => table_entries(*old(table)),
            _ => without(table_entries(*old(table)), rep),
        }),
{
    table.delete(Resource::<Bucket>::new_own(rep))
}

/// Law: an opened bucket is held under its handle, which led nowhere before.
pub proof fn law_opened_bucket_is_held(
    before: Seq<Option<TableEntry>>,
    after: Seq<Option<TableEntry>>,
    rep: u32,
    name: Seq<char>,
)
    requires
        is_added(before, after, rep, name),
    ensures
        found(before, rep) == Err::<Seq<char>, _>(ResourceTableError::NotPresent),
        holds(after, rep, name),
{
}

/// Law: a bucket that is held is found under its name, and can be closed.
pub proof fn law_held_bucket_is_found(entries: Seq<Option<TableEntry>>, rep: u32, name: Seq<char>)
    requires
        holds(entries, rep, name),
    ensures
        found(entries, rep) == Ok::<_, ResourceTableError>(name),
        removed(entries, rep) == Ok::<_, ResourceTableError>(name),
        is_detachable(entries, rep),
{
}

/// Law: opening a bucket changes nothing for any other handle.
pub proof fn law_opening_keeps_other_handles(
    before: Seq<Option<TableEntry>>,
    after: Seq<Option<TableEntry>>,
    rep: u32,
    name: Seq<char>,
    other: u32,
)
    requires
        is_added(before, after, rep, name),
        other != rep,
    ensures
        other < before.len() <==> other < after.len(),
        other < before.len() ==> after[other as int] == before[other as int],
        found(after, other) == found(before, other),
        removed(after, other) == removed(before, other),
{
}

/// Law: the handle of a closed bucket leads nowhere, every other handle leads where it
/// led, and the other buckets stay held.
pub proof fn law_closed_bucket_is_gone(
    entries: Seq<Option<TableEntry>>,
    rep: u32,
    other: u32,
    name: Seq<char>,
)
    requires
        removed(entries, rep) is Ok,
        is_detachable(entries, rep),
        other != rep,
    ensures
        found(without(entries, rep), rep) == Err::<Seq<char>, _>(ResourceTableError::NotPresent),
        found(without(entries, rep), other) == found(entries, other),
        holds(entries, other, name) ==> holds(without(entries, rep), other, name),
{
}

/// Law: opening a bucket and closing it again leaves every handle leading where it led.
pub proof fn law_closing_undoes_opening(
    before: Seq<Option<TableEntry>>,
    after: Seq<Option<TableEntry>>,
    rep: u32,
    name: Seq<char>,
    handle: u32,
)
    requires
        is_added(before, after, rep, name),
    ensures
        found(without(after, rep), handle) == found(before, handle),
        removed(without(after, rep), handle) == removed(before, handle),
{
}

/// Law: a handle leads to a bucket where its entry holds one, to nothing where there is no
/// entry, and to an error of type where the entry holds something else.
pub proof fn law_handle_leads_to_its_entry(
    entries: Seq<Option<TableEntry>>,
    rep: u32,
    name: Seq<char>,
)
    ensures
        found(entries, rep) == Ok::<_, ResourceTableError>(name) <==> rep < entries.len()
            && entries[rep as int] is Some && entries[rep as int]->0.bucket == Some(name),
        found(entries, rep) == Err::<Seq<char>, _>(ResourceTableError::NotPresent) <==> rep
            >= entries.len() || entries[rep as int] is None,
        found(entries, rep) == Err::<Seq<char>, _>(ResourceTableError::WrongType) <==> rep
            < entries.len() && entries[rep as int] is Some && entries[rep as int]->0.bucket is None,
{
}

/// Law: a bucket is closed where its handle leads to it and it has no children; with
/// children it is refused for them, and without a bucket for what the handle leads to.
pub proof fn law_only_childless_buckets_close(entries: Seq<Option<TableEntry>>, rep: u32)
    ensures
        removed(entries, rep) is Ok <==> found(entries, rep) is Ok && entries[rep as int]->0.children
            == Set::<u32>::empty(),
        removed(entries, rep) == Err::<Seq<char>, _>(ResourceTableError::HasChildren) <==> rep
            < entries.len() && entries[rep as int] is Some && entries[rep as int]->0.children
            != Set::<u32>::empty(),
        removed(entries, rep) is Ok ==> removed(entries, rep) == found(entries, rep),
        removed(entries, rep) is Err && removed(entries, rep) != Err::<Seq<char>, _>(
            ResourceTableError::HasChildren,
        ) ==> removed(entries, rep) == found(entries, rep),
        !is_live(entries, rep) ==> is_detachable(entries, rep),
{
    if is_live(entries, rep) {
        let children = entries[rep as int]->0.children;
        assert(children.is_empty() <==> children =~= Set::<u32>::empty());
    }
}

/// Law: closing frees the place of the bucket and no other; the other entries keep what they
/// hold and where they belong, and lose no child but the closed one.
pub proof fn law_closing_frees_one_place(entries: Seq<Option<TableEntry>>, rep: u32, other: u32)
    requires
        is_live(entries, rep),
        entries[rep as int]->0.children.is_empty(),
        is_detachable(entries, rep),
        other < entries.len(),
        other != rep,
    ensures
        without(entries, rep).len() == entries.len(),
        without(entries, rep)[rep as int] is None,
        without(entries, rep)[other as int] is None <==> entries[other as int] is None,
        entries[other as int] is Some ==> {
            let before = entries[other as int]->0;
            let after = without(entries, rep)[other as int]->0;
            &&& after.bucket == before.bucket
            &&& after.parent == before.parent
            &&& after.children == if entries[rep as int]->0.parent == Some(other) {
                before.children.remove(rep)
            } else {
                before.children
            }
        },
{
}

/// Law: a table is full where every entry is taken and it has as many as it may, or as many
/// as there are handles; so one with a free entry is not, nor one where an entry has
/// just been taken out.
pub proof fn law_free_place_takes_a_bucket(
    entries: Seq<Option<TableEntry>>,
    limit: usize,
    rep: u32,
)
    ensures
        is_free(entries, rep) ==> !is_full(entries, limit),
        entries.len() < limit && entries.len() <= u32::MAX ==> !is_full(entries, limit),
        entries.len() >= limit && (forall|i: int|
            0 <= i < entries.len() ==> #[trigger] entries[i] is Some) ==> is_full(entries, limit),
        removed(entries, rep) is Ok && is_detachable(entries, rep) ==> !is_full(
            without(entries, rep),
            limit,
        ),
{
    if removed(entries, rep) is Ok && is_detachable(entries, rep) {
        assert(is_free(without(entries, rep), rep));
    }
}

/// Law: an opened bucket takes a free place where there is one, and else makes the table one
/// entry longer, but never longer than it may be.
pub proof fn law_opening_takes_one_place(
    before: Seq<Option<TableEntry>>,
    after: Seq<Option<TableEntry>>,
    limit: usize,
    rep: u32,
    name: Seq<char>,
)
    requires
        !is_full(before, limit),
        is_added(before, after, rep, name),
    ensures
        after.len() <= before.len() + 1,
        after.len() > before.len() ==> after.len() <= limit && rep == before.len(),
        after.len() > before.len() ==> forall|i: int|
            0 <= i < before.len() && i <= u32::MAX ==> #[trigger] before[i] is Some,
        after.len() == before.len() ==> is_free(before, rep),
        after.len() >= before.len(),
{
    if after.len() > before.len() {
        assert forall|i: int| 0 <= i < before.len() && i <= u32::MAX implies #[trigger] before[i]
            is Some by {
            assert(!is_free(before, i as u32));
        }
    }
}

} // verus!
