//! The binary layout of the portal record as the host runtime stores it.
//!
//! Consumers reading the raw account bytes see the 8-byte little-endian
//! counter, then the 4-byte little-endian number of entries, then each
//! entry as a 4-byte little-endian byte length, the link's UTF-8 bytes,
//! and the 32 identity bytes.
use vstd::prelude::*;
use vstd::utf8::encode_utf8;

use crate::portal::account_size;
use crate::portal::entries_size;
use crate::portal::entry_size;
use crate::portal::BaseAccount;
use crate::portal::EntryModel;
use crate::portal::PortalModel;
use crate::portal::ACCOUNT_SPACE;

verus! {

/// Little-endian bytes of a 32-bit value, least significant first.
pub open spec fn spec_u32_le(v: u32) -> Seq<u8> {
    seq![
        (v & 0xff) as u8,
        ((v >> 8) & 0xff) as u8,
        ((v >> 16) & 0xff) as u8,
        ((v >> 24) & 0xff) as u8,
    ]
}

/// Little-endian bytes of a 64-bit value, least significant first.
pub open spec fn spec_u64_le(v: u64) -> Seq<u8> {
    seq![
        (v & 0xff) as u8,
        ((v >> 8) & 0xff) as u8,
        ((v >> 16) & 0xff) as u8,
        ((v >> 24) & 0xff) as u8,
        ((v >> 32) & 0xff) as u8,
        ((v >> 40) & 0xff) as u8,
        ((v >> 48) & 0xff) as u8,
        ((v >> 56) & 0xff) as u8,
    ]
}

/// Encoding of one entry: length-prefixed link bytes, then the identity.
pub open spec fn spec_entry_bytes(e: EntryModel) -> Seq<u8> {
    spec_u32_le(encode_utf8(e.link).len() as u32) + encode_utf8(e.link) + e.submitter
}

/// Encoding of the entry list, in order.
pub open spec fn spec_entries_bytes(s: Seq<EntryModel>) -> Seq<u8>
    decreases s.len(),
{
    if s.len() == 0 {
        Seq::empty()
    } else {
        spec_entry_bytes(s[0]) + spec_entries_bytes(s.drop_first())
    }
}

/// Encoding of the whole record: counter, entry count, entries.
pub open spec fn spec_account_bytes(p: PortalModel) -> Seq<u8> {
    spec_u64_le(p.total as u64) + spec_u32_le(p.entries.len() as u32) + spec_entries_bytes(
        p.entries,
    )
}

/// Law: the little-endian bytes of a 32-bit value decode back to it, so
/// a consumer can recover every length prefix from the raw bytes.
pub proof fn lemma_u32_le_value(v: u32)
    ensures
        spec_u32_le(v)[0] + 0x100 * spec_u32_le(v)[1] + 0x10000 * spec_u32_le(v)[2] + 0x1000000
            * spec_u32_le(v)[3] == v,
{
    assert((v & 0xff) as u8 + 0x100 * (((v >> 8) & 0xff) as u8) + 0x10000 * (((v >> 16)
        & 0xff) as u8) + 0x1000000 * (((v >> 24) & 0xff) as u8) == v) by (bit_vector);
}

/// Law: the little-endian bytes of a 64-bit value decode back to it, so
/// a consumer can recover the stored counter from the first bytes.
pub proof fn lemma_u64_le_value(v: u64)
    ensures
        spec_u64_le(v)[0] + 0x100 * spec_u64_le(v)[1] + 0x10000 * spec_u64_le(v)[2] + 0x1000000
            * spec_u64_le(v)[3] + 0x100000000 * spec_u64_le(v)[4] + 0x10000000000 * spec_u64_le(
            v,
        )[5] + 0x1000000000000 * spec_u64_le(v)[6] + 0x100000000000000 * spec_u64_le(v)[7] == v,
{
    assert((v & 0xff) as u8 + 0x100 * (((v >> 8) & 0xff) as u8) + 0x10000 * (((v >> 16)
        & 0xff) as u8) + 0x1000000 * (((v >> 24) & 0xff) as u8) + 0x100000000 * (((v >> 32)
        & 0xff) as u8) + 0x10000000000 * (((v >> 40) & 0xff) as u8) + 0x1000000000000 * (((v
        >> 48) & 0xff) as u8) + 0x100000000000000 * (((v >> 56) & 0xff) as u8) == v)
        by (bit_vector);
}

/// Law: the encoding of one entry occupies exactly its serialized size.
pub proof fn lemma_entry_bytes_len(e: EntryModel)
    ensures
        spec_entry_bytes(e).len() == entry_size(e),
{
}

/// Law: the encoding of an entry list occupies exactly its serialized size.
pub proof fn lemma_entries_bytes_len(s: Seq<EntryModel>)
    ensures
        spec_entries_bytes(s).len() == entries_size(s),
    decreases s.len(),
{
    if s.len() == 0 {
    } else {
        lemma_entries_bytes_len(s.drop_first());
    }
}

/// Law: the encoding of the whole record occupies exactly its serialized
/// size, the quantity the capacity check bounds by the byte budget.
pub proof fn lemma_account_bytes_len(p: PortalModel)
    ensures
        spec_account_bytes(p).len() == account_size(p),
{
    lemma_entries_bytes_len(p.entries);
}

proof fn lemma_u32_le_injective(a: u32, b: u32)
    requires
        spec_u32_le(a) == spec_u32_le(b),
    ensures
        a == b,
{
    lemma_u32_le_value(a);
    lemma_u32_le_value(b);
}

proof fn lemma_u64_le_injective(a: u64, b: u64)
    requires
        spec_u64_le(a) == spec_u64_le(b),
    ensures
        a == b,
{
    lemma_u64_le_value(a);
    lemma_u64_le_value(b);
}

proof fn lemma_concat_cancel(x1: Seq<u8>, y1: Seq<u8>, x2: Seq<u8>, y2: Seq<u8>)
    requires
        x1.len() == x2.len(),
        x1 + y1 == x2 + y2,
    ensures
        x1 == x2,
        y1 == y2,
{
    assert((x1 + y1).len() == x1.len() + y1.len());
    assert((x2 + y2).len() == x2.len() + y2.len());
    assert(y1.len() == y2.len());
    assert forall|i: int| 0 <= i < x1.len() implies x1[i] == x2[i] by {
        assert((x1 + y1)[i] == x1[i]);
        assert((x2 + y2)[i] == x2[i]);
    }
    assert(x1 =~= x2);
    assert forall|i: int| 0 <= i < y1.len() implies y1[i] == y2[i] by {
        assert((x1 + y1)[x1.len() + i] == y1[i]);
        assert((x2 + y2)[x2.len() + i] == y2[i]);
    }
    assert(y1 =~= y2);
}

proof fn lemma_entry_bytes_injective(e1: EntryModel, e2: EntryModel)
    requires
        encode_utf8(e1.link).len() < 0x100000000,
        encode_utf8(e2.link).len() < 0x100000000,
        e1.submitter.len() == e2.submitter.len(),
        spec_entry_bytes(e1) == spec_entry_bytes(e2),
    ensures
        e1 == e2,
{
    let b1 = encode_utf8(e1.link);
    let b2 = encode_utf8(e2.link);
    assert(spec_entry_bytes(e1) =~= spec_u32_le(b1.len() as u32) + (b1 + e1.submitter));
    assert(spec_entry_bytes(e2) =~= spec_u32_le(b2.len() as u32) + (b2 + e2.submitter));
    lemma_concat_cancel(
        spec_u32_le(b1.len() as u32),
        b1 + e1.submitter,
        spec_u32_le(b2.len() as u32),
        b2 + e2.submitter,
    );
    lemma_u32_le_injective(b1.len() as u32, b2.len() as u32);
    lemma_concat_cancel(b1, e1.submitter, b2, e2.submitter);
    vstd::utf8::encode_utf8_decode_utf8(e1.link);
    vstd::utf8::encode_utf8_decode_utf8(e2.link);
}

proof fn lemma_entries_bytes_injective(s1: Seq<EntryModel>, s2: Seq<EntryModel>)
    requires
        s1.len() == s2.len(),
        forall|i: int|
            0 <= i < s1.len() ==> encode_utf8((#[trigger] s1[i]).link).len() < 0x100000000,
        forall|i: int|
            0 <= i < s2.len() ==> encode_utf8((#[trigger] s2[i]).link).len() < 0x100000000,
        forall|i: int| 0 <= i < s1.len() ==> (#[trigger] s1[i]).submitter.len() == 32,
        forall|i: int| 0 <= i < s2.len() ==> (#[trigger] s2[i]).submitter.len() == 32,
        spec_entries_bytes(s1) == spec_entries_bytes(s2),
    ensures
        s1 == s2,
    decreases s1.len(),
{
    if s1.len() == 0 {
        assert(s1 =~= s2);
    } else {
        let h1 = spec_entry_bytes(s1[0]);
        let h2 = spec_entry_bytes(s2[0]);
        let b1 = encode_utf8(s1[0].link);
        let b2 = encode_utf8(s2[0].link);
        assert(spec_entries_bytes(s1) == h1 + spec_entries_bytes(s1.drop_first()));
        assert(spec_entries_bytes(s2) == h2 + spec_entries_bytes(s2.drop_first()));
        assert(h1 + spec_entries_bytes(s1.drop_first()) =~= spec_u32_le(b1.len() as u32) + ((b1
            + s1[0].submitter) + spec_entries_bytes(s1.drop_first())));
        assert(h2 + spec_entries_bytes(s2.drop_first()) =~= spec_u32_le(b2.len() as u32) + ((b2
            + s2[0].submitter) + spec_entries_bytes(s2.drop_first())));
        lemma_concat_cancel(
            spec_u32_le(b1.len() as u32),
            (b1 + s1[0].submitter) + spec_entries_bytes(s1.drop_first()),
            spec_u32_le(b2.len() as u32),
            (b2 + s2[0].submitter) + spec_entries_bytes(s2.drop_first()),
        );
        lemma_u32_le_injective(b1.len() as u32, b2.len() as u32);
        lemma_concat_cancel(
            b1 + s1[0].submitter,
            spec_entries_bytes(s1.drop_first()),
            b2 + s2[0].submitter,
            spec_entries_bytes(s2.drop_first()),
        );
        lemma_concat_cancel(b1, s1[0].submitter, b2, s2[0].submitter);
        vstd::utf8::encode_utf8_decode_utf8(s1[0].link);
        vstd::utf8::encode_utf8_decode_utf8(s2[0].link);
        assert(s1[0] == s2[0]);
        lemma_entries_bytes_injective(s1.drop_first(), s2.drop_first());
        assert forall|i: int| 0 <= i < s1.len() implies s1[i] == s2[i] by {
            if i > 0 {
                assert(s1.drop_first()[i - 1] == s1[i]);
                assert(s2.drop_first()[i - 1] == s2[i]);
            }
        }
        assert(s1 =~= s2);
    }
}

/// Law: the encoding is unambiguous. Two well-formed records with the
/// same raw bytes are the same record, so a consumer that decodes the
/// account bytes recovers exactly the record that was stored.
pub proof fn lemma_account_bytes_injective(p1: PortalModel, p2: PortalModel)
    requires
        crate::portal::model_wf(p1),
        crate::portal::model_wf(p2),
        spec_account_bytes(p1) == spec_account_bytes(p2),
    ensures
        p1 == p2,
{
    crate::portal::lemma_wf_entry_count_bound(p1);
    crate::portal::lemma_wf_entry_count_bound(p2);
    assert(spec_account_bytes(p1) =~= spec_u64_le(p1.total as u64) + (spec_u32_le(
        p1.entries.len() as u32,
    ) + spec_entries_bytes(p1.entries)));
    assert(spec_account_bytes(p2) =~= spec_u64_le(p2.total as u64) + (spec_u32_le(
        p2.entries.len() as u32,
    ) + spec_entries_bytes(p2.entries)));
    lemma_concat_cancel(
        spec_u64_le(p1.total as u64),
        spec_u32_le(p1.entries.len() as u32) + spec_entries_bytes(p1.entries),
        spec_u64_le(p2.total as u64),
        spec_u32_le(p2.entries.len() as u32) + spec_entries_bytes(p2.entries),
    );
    lemma_u64_le_injective(p1.total as u64, p2.total as u64);
    lemma_concat_cancel(
        spec_u32_le(p1.entries.len() as u32),
        spec_entries_bytes(p1.entries),
        spec_u32_le(p2.entries.len() as u32),
        spec_entries_bytes(p2.entries),
    );
    lemma_u32_le_injective(p1.entries.len() as u32, p2.entries.len() as u32);
    assert forall|i: int| 0 <= i < p1.entries.len() implies encode_utf8(
        (#[trigger] p1.entries[i]).link,
    ).len() < 0x100000000 by {
        crate::portal::lemma_wf_entry_size_bound(p1, i);
    }
    assert forall|i: int| 0 <= i < p2.entries.len() implies encode_utf8(
        (#[trigger] p2.entries[i]).link,
    ).len() < 0x100000000 by {
        crate::portal::lemma_wf_entry_size_bound(p2, i);
    }
    lemma_entries_bytes_injective(p1.entries, p2.entries);
}

fn push_u32_le(out: &mut Vec<u8>, v: u32)
    ensures
        final(out)@ == old(out)@ + spec_u32_le(v),
{
    out.push((v & 0xff) as u8);
    out.push(((v >> 8) & 0xff) as u8);
    out.push(((v >> 16) & 0xff) as u8);
    out.push(((v >> 24) & 0xff) as u8);
    proof {
        assert(out@ =~= old(out)@ + spec_u32_le(v));
    }
}

fn push_u64_le(out: &mut Vec<u8>, v: u64)
    ensures
        final(out)@ == old(out)@ + spec_u64_le(v),
{
    out.push((v & 0xff) as u8);
    out.push(((v >> 8) & 0xff) as u8);
    out.push(((v >> 16) & 0xff) as u8);
    out.push(((v >> 24) & 0xff) as u8);
    out.push(((v >> 32) & 0xff) as u8);
    out.push(((v >> 40) & 0xff) as u8);
    out.push(((v >> 48) & 0xff) as u8);
    out.push(((v >> 56) & 0xff) as u8);
    proof {
        assert(out@ =~= old(out)@ + spec_u64_le(v));
    }
}

proof fn lemma_entries_bytes_take_succ(s: Seq<EntryModel>, i: int)
    requires
        0 <= i < s.len(),
    ensures
        spec_entries_bytes(s.take(i + 1)) == spec_entries_bytes(s.take(i)) + spec_entry_bytes(
            s[i],
        ),
    decreases i,
{
    if i == 0 {
        assert(s.take(1) =~= Seq::empty().push(s[0]));
        assert(s.take(1)[0] == s[0]);
        assert(s.take(1).drop_first() =~= Seq::<EntryModel>::empty());
        assert(s.take(0) =~= Seq::<EntryModel>::empty());
        assert(spec_entries_bytes(s.take(0)) + spec_entry_bytes(s[0]) =~= spec_entry_bytes(s[0]));
    } else {
        lemma_entries_bytes_take_succ(s.drop_first(), i - 1);
        assert(s.take(i + 1)[0] == s[0]);
        assert(s.take(i)[0] == s[0]);
        assert(s.take(i + 1).drop_first() =~= s.drop_first().take(i));
        assert(s.take(i).drop_first() =~= s.drop_first().take(i - 1));
        assert(s.drop_first()[i - 1] == s[i]);
        assert(spec_entry_bytes(s[0]) + (spec_entries_bytes(s.drop_first().take(i - 1))
            + spec_entry_bytes(s[i])) =~= (spec_entry_bytes(s[0]) + spec_entries_bytes(
            s.drop_first().take(i - 1),
        )) + spec_entry_bytes(s[i]));
    }
}

/// The raw bytes of a well-formed portal record, exactly as the host
/// runtime's standard record encoding lays them out.
pub fn serialize_account(account: &BaseAccount) -> (r: Vec<u8>)
    requires
        account.wf(),
    ensures
        r@ == spec_account_bytes(account@),
        r@.len() == account_size(account@),
        r@.len() <= ACCOUNT_SPACE,
{
    let ghost p = account@;
    let ghost entries = p.entries;
    let mut out: Vec<u8> = Vec::new();
    push_u64_le(&mut out, account.total_gifs);
    proof {
        crate::portal::lemma_wf_entry_count_bound(p);
        assert(out@ =~= spec_u64_le(p.total as u64));
    }
    let count: u32 = account.gif_list.len() as u32;
    push_u32_le(&mut out, count);
    let ghost header = spec_u64_le(p.total as u64) + spec_u32_le(p.entries.len() as u32);
    proof {
        assert(out@ =~= header);
    }
    let mut i: usize = 0;
    let n: usize = account.gif_list.len();
    while i < n
        invariant
            account.wf(),
            p == account@,
            entries == p.entries,
            n == account.gif_list@.len(),
            i <= n,
            out@ == header + spec_entries_bytes(entries.take(i as int)),
        decreases n - i,
    {
        let ghost e = entries[i as int];
        proof {
            assert(e == account.gif_list@[i as int]@);
            crate::portal::lemma_wf_entry_size_bound(p, i as int);
        }
        let item_link_bytes: &[u8] = account.gif_list[i].gif_link.as_str().as_bytes();
        let link_len: u32 = item_link_bytes.len() as u32;
        push_u32_le(&mut out, link_len);
        out.extend_from_slice(item_link_bytes);
        out.extend_from_slice(account.gif_list[i].user_address.as_slice());
        proof {
            lemma_entries_bytes_take_succ(entries, i as int);
            assert(out@ =~= header + spec_entries_bytes(entries.take(i as int + 1)));
        }
        i = i + 1;
    }
    proof {
        assert(entries.take(n as int) =~= entries);
        lemma_account_bytes_len(p);
    }
    out
}

} // verus!
