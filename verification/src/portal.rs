//! The portal record and its two state transitions.
//!
//! A portal lives in one storage slot of fixed byte size. Creating the
//! portal writes a record with a zero counter and an empty entry list;
//! appending adds one entry tagged with the submitter's identity and
//! increments the counter. The serialized form of the record must always
//! fit the byte budget reserved at creation, so an append that would
//! cross that budget is rejected and changes nothing.
use vstd::prelude::*;
use vstd::utf8::encode_utf8;

verus! {

/// Byte budget reserved for the portal record at account creation.
pub const ACCOUNT_SPACE: usize = 9000;

/// Number of bytes of a submitter identity.
pub const IDENTITY_BYTES: usize = 32;

/// One appended record: a link text and the identity of its submitter.
#[derive(Debug, Clone, PartialEq)]
pub struct ItemStruct {
    pub gif_link: String,
    pub user_address: [u8; 32],
}

/// The persistent record held by the portal's storage slot.
#[derive(Debug, Clone, PartialEq)]
pub struct BaseAccount {
    pub total_gifs: u64,
    pub gif_list: Vec<ItemStruct>,
}

/// A storage slot as the host runtime presents it to the program:
/// either never allocated, or holding an initialized portal record.
#[derive(Debug, Clone, PartialEq)]
pub enum PortalSlot {
    Vacant,
    Holding(BaseAccount),
}

/// Why a transition was refused.
#[derive(Debug, Clone, Copy, PartialEq, Eq)]
pub enum PortalError {
    /// Create-portal hit a slot that already holds a record.
    AlreadyInitialized,
    /// Append hit a slot that was never initialized.
    NotInitialized,
    /// The appended entry would push the serialized record past the budget.
    CapacityExceeded,
}

/// The mathematical value of one entry.
pub struct EntryModel {
    pub link: Seq<char>,
    pub submitter: Seq<u8>,
}

/// The mathematical value of an initialized portal record.
pub struct PortalModel {
    pub total: nat,
    pub entries: Seq<EntryModel>,
}

impl View for ItemStruct {
    type V = EntryModel;

    open spec fn view(&self) -> EntryModel {
        EntryModel { link: self.gif_link@, submitter: self.user_address@ }
    }
}

impl View for BaseAccount {
    type V = PortalModel;

    open spec fn view(&self) -> PortalModel {
        PortalModel {
            total: self.total_gifs as nat,
            entries: self.gif_list@.map_values(|e: ItemStruct| e@),
        }
    }
}

impl View for PortalSlot {
    type V = Option<PortalModel>;

    open spec fn view(&self) -> Option<PortalModel> {
        match self {
            PortalSlot::Vacant => None,
            PortalSlot::Holding(account) => Some(account@),
        }
    }
}

/// Serialized size of one entry: a 4-byte length prefix, the link's
/// UTF-8 bytes, and the identity bytes (32 for every entry this program
/// builds).
pub open spec fn entry_size(e: EntryModel) -> int {
    4 + encode_utf8(e.link).len() as int + e.submitter.len() as int
}

/// Serialized size of a list of entries, in order.
pub open spec fn entries_size(s: Seq<EntryModel>) -> int
    decreases s.len(),
{
    if s.len() == 0 {
        0
    } else {
        entry_size(s[0]) + entries_size(s.drop_first())
    }
}

/// Serialized size of the whole record: the 8-byte counter, the 4-byte
/// length prefix of the entry list, then the entries.
pub open spec fn account_size(p: PortalModel) -> int {
    8 + 4 + entries_size(p.entries)
}

/// A well-formed portal record: the counter equals the number of
/// entries, every identity has the fixed width, and the serialized
/// record fits the reserved budget.
pub open spec fn model_wf(p: PortalModel) -> bool {
    &&& p.total == p.entries.len()
    &&& forall|i: int|
        0 <= i < p.entries.len() ==> (#[trigger] p.entries[i]).submitter.len() == IDENTITY_BYTES
    &&& account_size(p) <= ACCOUNT_SPACE
}

impl BaseAccount {
    /// Well-formedness of the stored record.
    pub open spec fn wf(&self) -> bool {
        model_wf(self@)
    }
}

impl PortalSlot {
    /// A slot is well formed when the record it holds, if any, is.
    pub open spec fn wf(&self) -> bool {
        match self {
            PortalSlot::Vacant => true,
            PortalSlot::Holding(account) => account.wf(),
        }
    }
}

/// The record that create-portal writes: zero counter, no entries.
pub open spec fn empty_portal() -> PortalModel {
    PortalModel { total: 0, entries: Seq::empty() }
}

proof fn lemma_empty_portal_wf()
    ensures
        model_wf(empty_portal()),
{
    assert(entries_size(empty_portal().entries) == 0);
}

/// Whether one more entry still fits the reserved byte budget.
pub open spec fn append_fits(p: PortalModel, e: EntryModel) -> bool {
    account_size(p) + entry_size(e) <= ACCOUNT_SPACE
}

/// The record after a successful append: one more entry at the end,
/// counter up by one.
pub open spec fn append_model(p: PortalModel, e: EntryModel) -> PortalModel {
    PortalModel { total: p.total + 1, entries: p.entries.push(e) }
}

proof fn lemma_entries_size_push(s: Seq<EntryModel>, e: EntryModel)
    ensures
        entries_size(s.push(e)) == entries_size(s) + entry_size(e),
    decreases s.len(),
{
    assert(s.push(e).len() == s.len() + 1);
    assert(entries_size(s.push(e)) == entry_size(s.push(e)[0]) + entries_size(
        s.push(e).drop_first(),
    ));
    if s.len() == 0 {
        assert(s.push(e)[0] == e);
        assert(s.push(e).drop_first() =~= Seq::<EntryModel>::empty());
        assert(entries_size(Seq::<EntryModel>::empty()) == 0);
    } else {
        assert(s.push(e).drop_first() =~= s.drop_first().push(e));
        lemma_entries_size_push(s.drop_first(), e);
        assert(s.push(e)[0] == s[0]);
        assert(entries_size(s) == entry_size(s[0]) + entries_size(s.drop_first()));
    }
}

proof fn lemma_entries_size_take_succ(s: Seq<EntryModel>, i: int)
    requires
        0 <= i < s.len(),
    ensures
        entries_size(s.take(i + 1)) == entries_size(s.take(i)) + entry_size(s[i]),
{
    assert(s.take(i + 1) =~= s.take(i).push(s[i]));
    lemma_entries_size_push(s.take(i), s[i]);
}

proof fn lemma_entries_size_lower(s: Seq<EntryModel>)
    ensures
        entries_size(s) >= 4 * s.len(),
    decreases s.len(),
{
    if s.len() == 0 {
    } else {
        lemma_entries_size_lower(s.drop_first());
    }
}

proof fn lemma_entries_size_split(s: Seq<EntryModel>, i: int)
    requires
        0 <= i <= s.len(),
    ensures
        entries_size(s) == entries_size(s.take(i)) + entries_size(s.skip(i)),
    decreases i,
{
    if i == 0 {
        assert(s.take(0) =~= Seq::<EntryModel>::empty());
        assert(s.skip(0) =~= s);
    } else {
        lemma_entries_size_split(s, i - 1);
        lemma_entries_size_take_succ(s, i - 1);
        assert(s.skip(i - 1)[0] == s[i - 1]);
        assert(s.skip(i - 1).drop_first() =~= s.skip(i));
    }
}

/// Law: a well-formed record holds few enough entries that the counter
/// and the entry count stay far from their machine limits.
pub proof fn lemma_wf_entry_count_bound(p: PortalModel)
    requires
        model_wf(p),
    ensures
        4 * p.entries.len() <= ACCOUNT_SPACE - 12,
{
    lemma_entries_size_lower(p.entries);
}

/// Law: in a well-formed record each single entry, its link bytes
/// included, fits the byte budget.
pub proof fn lemma_wf_entry_size_bound(p: PortalModel, i: int)
    requires
        model_wf(p),
        0 <= i < p.entries.len(),
    ensures
        entry_size(p.entries[i]) <= ACCOUNT_SPACE - 12,
        encode_utf8(p.entries[i].link).len() <= ACCOUNT_SPACE,
{
    lemma_entries_size_split(p.entries, i);
    lemma_entries_size_lower(p.entries.take(i));
    assert(p.entries.skip(i)[0] == p.entries[i]);
    assert(entries_size(p.entries.skip(i)) == entry_size(p.entries[i]) + entries_size(
        p.entries.skip(i).drop_first(),
    ));
    lemma_entries_size_lower(p.entries.skip(i).drop_first());
}

/// Serialized size in bytes of the record as stored.
pub fn account_used_bytes(account: &BaseAccount) -> (r: usize)
    requires
        account.wf(),
    ensures
        r == account_size(account@),
        r <= ACCOUNT_SPACE,
{
    let ghost entries = account@.entries;
    let mut used: usize = 12;
    let mut i: usize = 0;
    let n: usize = account.gif_list.len();
    while i < n
        invariant
            account.wf(),
            n == account.gif_list@.len(),
            i <= n,
            entries == account@.entries,
            used == 12 + entries_size(entries.take(i as int)),
            used <= ACCOUNT_SPACE,
        decreases n - i,
    {
        let link_len: usize = account.gif_list[i].gif_link.as_str().as_bytes().len();
        proof {
            assert(entries[i as int] == account.gif_list@[i as int]@);
            assert(entry_size(entries[i as int]) == 4 + link_len + IDENTITY_BYTES);
            lemma_entries_size_take_succ(entries, i as int);
            lemma_entries_size_split(entries, i as int + 1);
            lemma_entries_size_lower(entries.skip(i as int + 1));
            assert(12 + entries_size(entries.take(i as int + 1)) <= account_size(account@));
        }
        used = used + 4 + link_len + IDENTITY_BYTES;
        i = i + 1;
    }
    proof {
        assert(entries.take(n as int) =~= entries);
    }
    used
}

/// Decide well-formedness of an arbitrary record, as a caller that got
/// one from outside the library (say, from the host runtime's storage)
/// must before handing it to the transitions.
pub fn check_account(account: &BaseAccount) -> (r: bool)
    ensures
        r == account.wf(),
{
    let ghost entries = account@.entries;
    let n: usize = account.gif_list.len();
    if account.total_gifs != n as u64 {
        return false;
    }
    let mut used: usize = 12;
    let mut i: usize = 0;
    while i < n
        invariant
            n == account.gif_list@.len(),
            i <= n,
            entries == account@.entries,
            used == 12 + entries_size(entries.take(i as int)),
            used <= ACCOUNT_SPACE,
        decreases n - i,
    {
        let link_len: usize = account.gif_list[i].gif_link.as_str().as_bytes().len();
        proof {
            assert(entries[i as int] == account.gif_list@[i as int]@);
            assert(entry_size(entries[i as int]) == 4 + link_len + IDENTITY_BYTES);
            lemma_entries_size_take_succ(entries, i as int);
            lemma_entries_size_split(entries, i as int + 1);
            lemma_entries_size_lower(entries.skip(i as int + 1));
        }
        if link_len > ACCOUNT_SPACE || used + 4 + link_len + IDENTITY_BYTES > ACCOUNT_SPACE {
            return false;
        }
        used = used + 4 + link_len + IDENTITY_BYTES;
        i = i + 1;
    }
    proof {
        assert(entries.take(n as int) =~= entries);
    }
    true
}

/// Append one entry to an initialized portal record. The entry takes the
/// link text verbatim and the submitter identity of this very call.
/// A never-initialized slot and an entry that would push the serialized
/// record past the reserved budget are refused, and the slot is left
/// exactly as it was.
pub fn add_gif(slot: &mut PortalSlot, gif_link: String, user_address: [u8; 32]) -> (r: Result<
    (),
    PortalError,
>)
    requires
        old(slot).wf(),
    ensures
        final(slot).wf(),
        match old(slot)@ {
            None => r == Err::<(), PortalError>(PortalError::NotInitialized) && *final(slot)
                == *old(slot),
            Some(p) => ({
                let e = (EntryModel { link: gif_link@, submitter: user_address@ });
                if append_fits(p, e) {
                    r is Ok && final(slot)@ == Some(append_model(p, e))
                } else {
                    r == Err::<(), PortalError>(PortalError::CapacityExceeded) && *final(slot)
                        == *old(slot)
                }
            }),
        },
{
    match slot {
        PortalSlot::Vacant => Err(PortalError::NotInitialized),
        PortalSlot::Holding(account) => {
            let ghost p = account@;
            let ghost e = EntryModel { link: gif_link@, submitter: user_address@ };
            let used: usize = account_used_bytes(account);
            let link_len: usize = gif_link.as_str().as_bytes().len();
            proof {
                assert(entry_size(e) == 4 + link_len + IDENTITY_BYTES);
            }
            if link_len > ACCOUNT_SPACE || used + 4 + link_len + IDENTITY_BYTES > ACCOUNT_SPACE {
                return Err(PortalError::CapacityExceeded);
            }
            proof {
                lemma_entries_size_lower(p.entries);
            }
            let item = ItemStruct { gif_link, user_address };
            account.gif_list.push(item);
            account.total_gifs = account.total_gifs + 1;
            proof {
                lemma_entries_size_push(p.entries, e);
                assert(account@.entries =~= p.entries.push(e));
            }
            Ok(())
        },
    }
}

/// Create the portal record in the given slot. Succeeds exactly on a
/// never-initialized slot; an occupied slot is refused and left as it was.
pub fn initialize(slot: &mut PortalSlot) -> (r: Result<(), PortalError>)
    ensures
        final(slot).wf() == old(slot).wf(),
        match old(slot)@ {
            None => r is Ok && final(slot)@ == Some(empty_portal()),
            Some(_) => r == Err::<(), PortalError>(PortalError::AlreadyInitialized)
                && *final(slot) == *old(slot),
        },
{
    match slot {
        PortalSlot::Vacant => {
            let account = BaseAccount { total_gifs: 0, gif_list: Vec::new() };
            proof {
                assert(account@.entries =~= Seq::<EntryModel>::empty());
                lemma_empty_portal_wf();
            }
            *slot = PortalSlot::Holding(account);
            Ok(())
        },
        PortalSlot::Holding(_) => Err(PortalError::AlreadyInitialized),
    }
}

/// The record after a whole sequence of successful appends, oldest first.
pub open spec fn apply_appends(p: PortalModel, reqs: Seq<EntryModel>) -> PortalModel
    decreases reqs.len(),
{
    if reqs.len() == 0 {
        p
    } else {
        apply_appends(append_model(p, reqs[0]), reqs.drop_first())
    }
}

/// Law: successful appends accumulate. A run of appends raises the counter
/// by exactly the number of appends and adds exactly the appended entries,
/// in call order, after whatever was there before.
pub proof fn lemma_appends_accumulate(p: PortalModel, reqs: Seq<EntryModel>)
    ensures
        apply_appends(p, reqs).total == p.total + reqs.len(),
        apply_appends(p, reqs).entries == p.entries + reqs,
    decreases reqs.len(),
{
    if reqs.len() == 0 {
        assert(p.entries + reqs =~= p.entries);
    } else {
        lemma_appends_accumulate(append_model(p, reqs[0]), reqs.drop_first());
        assert(p.entries.push(reqs[0]) + reqs.drop_first() =~= p.entries + reqs);
    }
}

/// Law: after create-portal and N successful appends the counter reads N,
/// the list holds exactly the N appended entries in call order, and each
/// entry carries the submitter identity of its own call, untouched by any
/// other call.
pub proof fn lemma_portal_counts_appends(reqs: Seq<EntryModel>)
    ensures
        apply_appends(empty_portal(), reqs).total == reqs.len(),
        apply_appends(empty_portal(), reqs).entries == reqs,
        forall|i: int|
            0 <= i < reqs.len() ==> apply_appends(empty_portal(), reqs).entries[i].submitter
                == reqs[i].submitter,
{
    lemma_appends_accumulate(empty_portal(), reqs);
    assert(empty_portal().entries + reqs =~= reqs);
}

} // verus!
