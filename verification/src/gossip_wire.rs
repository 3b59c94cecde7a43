//! Facts about members and numbered changes of the ring, on the wire.

use crate::authority::NodeId;
use crate::bytes::{
    bytes_field, le32, le64, lemma_append_associates, lemma_le_len, lemma_parse_bytes,
    lemma_parse_text, lemma_parse_u32, lemma_parse_u64, lemma_parse_u8, lemma_read_integers,
    lemma_read_text, lemma_read_u8, parse_bytes, parse_text, parse_u32, parse_u64, parse_u8,
    put_bytes, put_text, put_u32, put_u64, put_u8, take_bytes, take_text, take_u32, take_u64,
    take_u8, text_field, whole, Parsed,
};
use crate::datum::{lemma_parse_id, parse_id, put_id, take_id};
use crate::gossip_state::{MemberFact, MemberProfile, MemberRole, ProfileModel};
use crate::list_wire::{
    all_fit, lemma_list_round_trip, list_field, models, parse_list, put_list, take_list, Wire,
};
use crate::membership::{Incarnation, MemberStatus, MemberUpdate};
use crate::request::text_fits;
use crate::sequencer::RingMutation;
use crate::wire_error::{Header, Missing, Subject, Tag, WireError};
use vstd::prelude::*;

verus! {

pub const STATUS_ALIVE: u8 = 0;

pub const STATUS_SUSPECT: u8 = 1;

pub const STATUS_DEAD: u8 = 2;

/// The length of what precedes the texts of a fact.
pub const MEMBER_HEADER_LEN: usize = 21;

/// The mathematical content of a [`MemberUpdate`].
pub struct MemberModel {
    pub node_id: NodeId,
    pub incarnation: Incarnation,
    pub status: MemberStatus,
    pub client_address: Seq<char>,
    pub gossip_address: Seq<char>,
    pub thread_count: u32,
}

impl View for MemberUpdate {
    type V = MemberModel;

    open spec fn view(&self) -> MemberModel {
        MemberModel {
            node_id: self.node_id,
            incarnation: self.incarnation,
            status: self.status,
            client_address: self.client_address@,
            gossip_address: self.gossip_address@,
            thread_count: self.thread_count,
        }
    }
}

pub open spec fn status_byte(s: MemberStatus) -> u8 {
    match s {
        MemberStatus::Alive => STATUS_ALIVE,
        MemberStatus::Suspect => STATUS_SUSPECT,
        MemberStatus::Dead => STATUS_DEAD,
    }
}

pub open spec fn status_of(tag: u8) -> Result<MemberStatus, WireError> {
    if tag == STATUS_ALIVE {
        Ok(MemberStatus::Alive)
    } else if tag == STATUS_SUSPECT {
        Ok(MemberStatus::Suspect)
    } else if tag == STATUS_DEAD {
        Ok(MemberStatus::Dead)
    } else {
        Err(WireError::UnknownTag { what: Tag::MemberStatus, tag })
    }
}

/// The bytes of a fact.
pub open spec fn member_bytes(m: MemberModel) -> Seq<u8> {
    le64(m.node_id.0) + (le64(m.incarnation.0) + (seq![status_byte(m.status)] + (le32(
        m.thread_count,
    ) + (text_field(m.client_address) + text_field(m.gossip_address)))))
}

/// The fact that bytes spell. What follows its last text is ignored.
pub open spec fn parse_member(s: Seq<u8>) -> Result<MemberModel, WireError> {
    if s.len() < MEMBER_HEADER_LEN {
        Err(WireError::TooShort { what: Header::MemberUpdate, found: s.len() as u64 })
    } else {
        match parse_u64(s) {
            Err(e) => Err(e),
            Ok((node, s1)) => match parse_u64(s1) {
                Err(e) => Err(e),
                Ok((incarnation, s2)) => match parse_u8(s2) {
                    Err(e) => Err(e),
                    Ok((tag, s3)) => match status_of(tag) {
                        Err(e) => Err(e),
                        Ok(status) => match parse_u32(s3) {
                            Err(e) => Err(e),
                            Ok((thread_count, s4)) => match parse_text(s4) {
                                Err(_) => Err(WireError::Missing { what: Missing::ClientAddress }),
                                Ok((client_address, s5)) => match parse_text(s5) {
                                    Err(_) => Err(WireError::Missing { what: Missing::GossipAddress }),
                                    Ok((gossip_address, _)) => Ok(
                                        MemberModel {
                                            node_id: NodeId(node),
                                            incarnation: Incarnation(incarnation),
                                            status,
                                            client_address,
                                            gossip_address,
                                            thread_count,
                                        },
                                    ),
                                },
                            },
                        },
                    },
                },
            },
        }
    }
}

/// A decoded fact, viewed.
pub open spec fn member_view(r: Result<MemberUpdate, WireError>) -> Result<
    MemberModel,
    WireError,
> {
    match r {
        Ok(u) => Ok(u@),
        Err(e) => Err(e),
    }
}

pub fn encode_member_update(update: &MemberUpdate) -> (buf: Vec<u8>)
    ensures
        buf@ == member_bytes(update@),
{
    broadcast use lemma_append_associates;

    let mut buf: Vec<u8> = Vec::new();
    put_u64(&mut buf, update.node_id.0);
    assert(buf@ =~= le64(update.node_id.0));
    put_u64(&mut buf, update.incarnation.0);
    put_u8(
        &mut buf,
        match update.status {
            MemberStatus::Alive => STATUS_ALIVE,
            MemberStatus::Suspect => STATUS_SUSPECT,
            MemberStatus::Dead => STATUS_DEAD,
        },
    );
    put_u32(&mut buf, update.thread_count);
    put_text(&mut buf, update.client_address.as_str());
    put_text(&mut buf, update.gossip_address.as_str());
    buf
}

pub fn decode_member_update(buf: &[u8]) -> (r: Result<MemberUpdate, WireError>)
    ensures
        member_view(r) == parse_member(buf@),
{
    if buf.len() < MEMBER_HEADER_LEN {
        return Err(WireError::TooShort { what: Header::MemberUpdate, found: buf.len() as u64 });
    }
    let (node, s1) = match take_u64(buf) {
        Err(e) => return Err(e),
        Ok(x) => x,
    };
    let (incarnation, s2) = match take_u64(s1) {
        Err(e) => return Err(e),
        Ok(x) => x,
    };
    let (tag, s3) = match take_u8(s2) {
        Err(e) => return Err(e),
        Ok(x) => x,
    };
    let status = if tag == STATUS_ALIVE {
        MemberStatus::Alive
    } else if tag == STATUS_SUSPECT {
        MemberStatus::Suspect
    } else if tag == STATUS_DEAD {
        MemberStatus::Dead
    } else {
        return Err(WireError::UnknownTag { what: Tag::MemberStatus, tag });
    };
    let (thread_count, s4) = match take_u32(s3) {
        Err(e) => return Err(e),
        Ok(x) => x,
    };
    let (client_address, s5) = match take_text(s4) {
        Err(_) => return Err(WireError::Missing { what: Missing::ClientAddress }),
        Ok(x) => x,
    };
    let (gossip_address, _) = match take_text(s5) {
        Err(_) => return Err(WireError::Missing { what: Missing::GossipAddress }),
        Ok(x) => x,
    };
    Ok(
        MemberUpdate {
            node_id: NodeId(node),
            incarnation: Incarnation(incarnation),
            status,
            client_address,
            gossip_address,
            thread_count,
        },
    )
}

/// Decoding gives back the fact that was encoded, where its addresses fit their
/// length prefixes.
pub proof fn law_member_round_trip(m: MemberModel)
    requires
        text_fits(m.client_address),
        text_fits(m.gossip_address),
    ensures
        parse_member(member_bytes(m)) == Ok::<MemberModel, WireError>(m),
{
    let t5 = text_field(m.gossip_address);
    let t4 = text_field(m.client_address) + t5;
    let t3 = le32(m.thread_count) + t4;
    let t2 = seq![status_byte(m.status)] + t3;
    let t1 = le64(m.incarnation.0) + t2;
    lemma_le_len(m.node_id.0 as nat, 8);
    lemma_le_len(m.incarnation.0 as nat, 8);
    lemma_le_len(m.thread_count as nat, 4);
    lemma_parse_u64(m.node_id.0, t1);
    lemma_parse_u64(m.incarnation.0, t2);
    lemma_parse_u8(status_byte(m.status), t3);
    lemma_parse_u32(m.thread_count, t4);
    lemma_parse_text(m.client_address, t5);
    assert(t5 + seq![] =~= t5);
    lemma_parse_text(m.gossip_address, seq![]);
}

proof fn lemma_member_followed(m: MemberModel, rest: Seq<u8>)
    ensures
        member_bytes(m) + rest == le64(m.node_id.0) + (le64(m.incarnation.0) + (seq![
            status_byte(m.status),
        ] + (le32(m.thread_count) + (text_field(m.client_address) + (text_field(m.gossip_address)
            + rest))))),
{
    let u5 = text_field(m.gossip_address);
    let u4 = text_field(m.client_address) + u5;
    let u3 = le32(m.thread_count) + u4;
    let u2 = seq![status_byte(m.status)] + u3;
    let u1 = le64(m.incarnation.0) + u2;
    lemma_append_associates(text_field(m.client_address), u5, rest);
    lemma_append_associates(le32(m.thread_count), u4, rest);
    lemma_append_associates(seq![status_byte(m.status)], u3, rest);
    lemma_append_associates(le64(m.incarnation.0), u2, rest);
    lemma_append_associates(le64(m.node_id.0), u1, rest);
}

/// A fact is read up to the end of its last field, whatever follows.
proof fn lemma_member_read(m: MemberModel, rest: Seq<u8>)
    requires
        text_fits(m.client_address),
        text_fits(m.gossip_address),
    ensures
        parse_member(member_bytes(m) + rest) == Ok::<MemberModel, WireError>(m),
{
    let t5 = text_field(m.gossip_address) + rest;
    let t4 = text_field(m.client_address) + t5;
    let t3 = le32(m.thread_count) + t4;
    let t2 = seq![status_byte(m.status)] + t3;
    let t1 = le64(m.incarnation.0) + t2;
    lemma_le_len(m.node_id.0 as nat, 8);
    lemma_le_len(m.incarnation.0 as nat, 8);
    lemma_le_len(m.thread_count as nat, 4);
    lemma_parse_u64(m.node_id.0, t1);
    lemma_parse_u64(m.incarnation.0, t2);
    lemma_parse_u8(status_byte(m.status), t3);
    lemma_parse_u32(m.thread_count, t4);
    lemma_parse_text(m.client_address, t5);
    lemma_parse_text(m.gossip_address, rest);
    lemma_member_followed(m, rest);
    assert((le64(m.node_id.0) + t1).len() >= MEMBER_HEADER_LEN);
}

/// Bytes that are read as a fact begin with its encoding.
pub proof fn law_member_is_its_encoding(s: Seq<u8>)
    ensures
        parse_member(s) matches Ok(m) ==> member_bytes(m).is_prefix_of(s) && text_fits(
            m.client_address,
        ) && text_fits(m.gossip_address),
{
    if let Ok(m) = parse_member(s) {
        let (_, s1) = parse_u64(s)->Ok_0;
        let (_, s2) = parse_u64(s1)->Ok_0;
        let (_, s3) = parse_u8(s2)->Ok_0;
        let (_, s4) = parse_u32(s3)->Ok_0;
        let (_, s5) = parse_text(s4)->Ok_0;
        let (_, rest) = parse_text(s5)->Ok_0;
        lemma_read_integers(s);
        lemma_read_integers(s1);
        lemma_read_u8(s2);
        lemma_read_integers(s3);
        lemma_read_text(s4);
        lemma_read_text(s5);
        lemma_member_followed(m, rest);
        assert(s == member_bytes(m) + rest);
        assert(s.subrange(0, member_bytes(m).len() as int) =~= member_bytes(m));
    }
}

proof fn lemma_front_of_cut(all: Seq<u8>, n: int, front: Seq<u8>)
    requires
        0 <= n <= all.len(),
        front.is_prefix_of(all.take(n)),
    ensures
        front.len() <= n,
        all == front + all.skip(front.len() as int),
{
    let len = front.len() as int;
    assert(all.take(len) =~= all.take(n).subrange(0, len));
    assert(all =~= all.take(len) + all.skip(len));
}

/// A fact that was cut off anywhere is refused.
#[verifier::spinoff_prover]
pub proof fn law_cut_member_refused(m: MemberModel, n: int)
    requires
        text_fits(m.client_address),
        text_fits(m.gossip_address),
        0 <= n < member_bytes(m).len(),
    ensures
        parse_member(member_bytes(m).take(n)) is Err,
{
    let all = member_bytes(m);
    let cut = all.take(n);
    law_member_is_its_encoding(cut);
    if let Ok(other) = parse_member(cut) {
        let front = member_bytes(other);
        lemma_front_of_cut(all, n, front);
        lemma_member_read(other, all.skip(front.len() as int));
        law_member_round_trip(m);
    }
}

/// A fact with a status that there is none of is refused as such.
pub proof fn law_unknown_status_refused(s: Seq<u8>)
    requires
        s.len() >= MEMBER_HEADER_LEN,
        s[16] > STATUS_DEAD,
    ensures
        parse_member(s) == Err::<MemberModel, WireError>(WireError::UnknownTag { what: Tag::MemberStatus, tag: s[16] }),
{
}

// ---- numbered changes ----

pub const MUTATION_JOIN: u8 = 0;

pub const MUTATION_LEAVE: u8 = 1;

/// The length of a numbered join.
pub const JOIN_LEN: usize = 21;

/// The length of a numbered leave.
pub const LEAVE_LEN: usize = 17;

/// The bytes of a numbered change.
pub open spec fn mutation_bytes(epoch: u64, m: RingMutation) -> Seq<u8> {
    match m {
        RingMutation::Join { node_id, thread_count } => le64(epoch) + (seq![MUTATION_JOIN] + (le64(
            node_id.0,
        ) + le32(thread_count))),
        RingMutation::Leave { node_id } => le64(epoch) + (seq![MUTATION_LEAVE] + le64(node_id.0)),
    }
}

/// The numbered change that bytes spell.
pub open spec fn parse_mutation(s: Seq<u8>) -> Result<(u64, RingMutation), WireError> {
    if s.len() < LEAVE_LEN {
        Err(WireError::TooShort { what: Header::RingMutation, found: s.len() as u64 })
    } else {
        match parse_u64(s) {
            Err(e) => Err(e),
            Ok((epoch, s1)) => match parse_u8(s1) {
                Err(e) => Err(e),
                Ok((tag, s2)) => match parse_u64(s2) {
                    Err(e) => Err(e),
                    Ok((node, s3)) => if tag == MUTATION_JOIN {
                        if s.len() != JOIN_LEN {
                            Err(
                                WireError::WrongLength {
                                    what: Subject::Join,
                                    expected: JOIN_LEN as u64,
                                    found: s.len() as u64,
                                },
                            )
                        } else {
                            match parse_u32(s3) {
                                Err(e) => Err(e),
                                Ok((thread_count, _)) => Ok(
                                    (
                                        epoch,
                                        RingMutation::Join { node_id: NodeId(node), thread_count },
                                    ),
                                ),
                            }
                        }
                    } else if tag == MUTATION_LEAVE {
                        if s.len() != LEAVE_LEN {
                            Err(
                                WireError::WrongLength {
                                    what: Subject::Leave,
                                    expected: LEAVE_LEN as u64,
                                    found: s.len() as u64,
                                },
                            )
                        } else {
                            Ok((epoch, RingMutation::Leave { node_id: NodeId(node) }))
                        }
                    } else {
                        Err(WireError::UnknownTag { what: Tag::RingMutation, tag })
                    },
                },
            },
        }
    }
}

pub fn encode_ring_mutation_record(epoch: u64, mutation: &RingMutation) -> (buf: Vec<u8>)
    ensures
        buf@ == mutation_bytes(epoch, *mutation),
{
    broadcast use lemma_append_associates;

    let mut buf: Vec<u8> = Vec::new();
    put_u64(&mut buf, epoch);
    assert(buf@ =~= le64(epoch));
    match mutation {
        RingMutation::Join { node_id, thread_count } => {
            put_u8(&mut buf, MUTATION_JOIN);
            put_u64(&mut buf, node_id.0);
            put_u32(&mut buf, *thread_count);
        },
        RingMutation::Leave { node_id } => {
            put_u8(&mut buf, MUTATION_LEAVE);
            put_u64(&mut buf, node_id.0);
        },
    }
    buf
}

pub fn decode_ring_mutation_record(buf: &[u8]) -> (r: Result<(u64, RingMutation), WireError>)
    ensures
        r == parse_mutation(buf@),
{
    if buf.len() < LEAVE_LEN {
        return Err(WireError::TooShort { what: Header::RingMutation, found: buf.len() as u64 });
    }
    let (epoch, s1) = match take_u64(buf) {
        Err(e) => return Err(e),
        Ok(x) => x,
    };
    let (tag, s2) = match take_u8(s1) {
        Err(e) => return Err(e),
        Ok(x) => x,
    };
    let (node, s3) = match take_u64(s2) {
        Err(e) => return Err(e),
        Ok(x) => x,
    };
    if tag == MUTATION_JOIN {
        if buf.len() != JOIN_LEN {
            return Err(
                WireError::WrongLength {
                    what: Subject::Join,
                    expected: JOIN_LEN as u64,
                    found: buf.len() as u64,
                },
            );
        }
        match take_u32(s3) {
            Err(e) => Err(e),
            Ok((thread_count, _)) => Ok(
                (epoch, RingMutation::Join { node_id: NodeId(node), thread_count }),
            ),
        }
    } else if tag == MUTATION_LEAVE {
        if buf.len() != LEAVE_LEN {
            return Err(
                WireError::WrongLength {
                    what: Subject::Leave,
                    expected: LEAVE_LEN as u64,
                    found: buf.len() as u64,
                },
            );
        }
        Ok((epoch, RingMutation::Leave { node_id: NodeId(node) }))
    } else {
        Err(WireError::UnknownTag { what: Tag::RingMutation, tag })
    }
}

/// Decoding gives back the numbered change that was encoded.
pub proof fn law_mutation_round_trip(epoch: u64, m: RingMutation)
    ensures
        parse_mutation(mutation_bytes(epoch, m)) == Ok::<(u64, RingMutation), WireError>(
            (epoch, m),
        ),
{
    lemma_le_len(epoch as nat, 8);
    match m {
        RingMutation::Join { node_id, thread_count } => {
            let t2 = le32(thread_count);
            let t1 = le64(node_id.0) + t2;
            lemma_le_len(node_id.0 as nat, 8);
            lemma_le_len(thread_count as nat, 4);
            lemma_parse_u64(epoch, seq![MUTATION_JOIN] + t1);
            lemma_parse_u8(MUTATION_JOIN, t1);
            lemma_parse_u64(node_id.0, t2);
            assert(t2 + seq![] =~= t2);
            lemma_parse_u32(thread_count, seq![]);
        },
        RingMutation::Leave { node_id } => {
            let t1 = le64(node_id.0);
            lemma_le_len(node_id.0 as nat, 8);
            lemma_parse_u64(epoch, seq![MUTATION_LEAVE] + t1);
            lemma_parse_u8(MUTATION_LEAVE, t1);
            assert(t1 + seq![] =~= t1);
            lemma_parse_u64(node_id.0, seq![]);
        },
    }
}

/// Bytes that are read as a numbered change are its encoding.
pub proof fn law_mutation_is_its_encoding(s: Seq<u8>)
    ensures
        parse_mutation(s) matches Ok((epoch, m)) ==> s == mutation_bytes(epoch, m),
{
    if let Ok((epoch, m)) = parse_mutation(s) {
        let (_, s1) = parse_u64(s)->Ok_0;
        let (_, s2) = parse_u8(s1)->Ok_0;
        let (node, s3) = parse_u64(s2)->Ok_0;
        lemma_read_integers(s);
        lemma_read_u8(s1);
        lemma_read_integers(s2);
        lemma_read_integers(s3);
        lemma_le_len(epoch as nat, 8);
        lemma_le_len(node as nat, 8);
        match m {
            RingMutation::Join { thread_count, .. } => {
                lemma_le_len(thread_count as nat, 4);
                assert(s3 =~= le32(thread_count));
            },
            RingMutation::Leave { .. } => {
                assert(s2 =~= le64(node));
            },
        }
    }
}

// ---- messages ----

/// A fact in a list: its bytes with their length.
impl Wire for MemberUpdate {
    type Model = MemberModel;

    open spec fn model(self) -> MemberModel {
        self@
    }

    open spec fn bytes_of(m: MemberModel) -> Seq<u8> {
        bytes_field(member_bytes(m))
    }

    open spec fn parse(s: Seq<u8>) -> Parsed<MemberModel> {
        match parse_bytes(s) {
            Err(e) => Err(e),
            Ok((b, rest)) => match parse_member(b) {
                Err(e) => Err(e),
                Ok(m) => Ok((m, rest)),
            },
        }
    }

    open spec fn fits(m: MemberModel) -> bool {
        text_fits(m.client_address) && text_fits(m.gossip_address) && member_bytes(m).len()
            <= u32::MAX
    }

    fn put(&self, out: &mut Vec<u8>) {
        put_bytes(out, encode_member_update(self).as_slice());
    }

    fn take(buf: &[u8]) -> (r: Result<(Self, &[u8]), WireError>) {
        let (b, rest) = match take_bytes(buf) {
            Err(e) => return Err(e),
            Ok(x) => x,
        };
        match decode_member_update(b.as_slice()) {
            Err(e) => Err(e),
            Ok(update) => Ok((update, rest)),
        }
    }

    proof fn lemma_round_trip(m: MemberModel, rest: Seq<u8>) {
        lemma_parse_bytes(member_bytes(m), rest);
        law_member_round_trip(m);
    }
}

pub const ROLE_COMPUTE: u8 = 0;

pub const ROLE_STORAGE: u8 = 1;

pub open spec fn role_byte(role: MemberRole) -> u8 {
    match role {
        MemberRole::Compute => ROLE_COMPUTE,
        MemberRole::Storage => ROLE_STORAGE,
    }
}

/// The bytes of what a member offers.
pub open spec fn profile_bytes(p: ProfileModel) -> Seq<u8> {
    seq![role_byte(p.role)] + (le32(p.capacity_weight) + (text_field(p.store_address)
        + p.log_id.bytes()))
}

/// What a member offers, at the front of a sequence.
pub open spec fn parse_profile(s: Seq<u8>) -> Parsed<ProfileModel> {
    match parse_u8(s) {
        Err(e) => Err(e),
        Ok((tag, s1)) => if tag > ROLE_STORAGE {
            Err(WireError::UnknownTag { what: Tag::MemberRole, tag })
        } else {
            match parse_u32(s1) {
                Err(e) => Err(e),
                Ok((capacity_weight, s2)) => match parse_text(s2) {
                    Err(e) => Err(e),
                    Ok((store_address, s3)) => match parse_id(s3) {
                        Err(e) => Err(e),
                        Ok((log_id, rest)) => Ok(
                            (
                                ProfileModel {
                                    role: if tag == ROLE_COMPUTE {
                                        MemberRole::Compute
                                    } else {
                                        MemberRole::Storage
                                    },
                                    capacity_weight,
                                    store_address,
                                    log_id,
                                },
                                rest,
                            ),
                        ),
                    },
                },
            }
        },
    }
}

fn put_profile(out: &mut Vec<u8>, profile: &MemberProfile)
    ensures
        final(out)@ == old(out)@ + profile_bytes(profile@),
{
    broadcast use lemma_append_associates;

    put_u8(
        out,
        match profile.role {
            MemberRole::Compute => ROLE_COMPUTE,
            MemberRole::Storage => ROLE_STORAGE,
        },
    );
    put_u32(out, profile.capacity_weight);
    put_text(out, profile.store_address.as_str());
    put_id(out, profile.log_id);
}

fn take_profile(buf: &[u8]) -> (r: Result<(MemberProfile, &[u8]), WireError>)
    ensures
        (match r {
            Ok((p, rest)) => Ok::<(ProfileModel, Seq<u8>), WireError>((p@, rest@)),
            Err(e) => Err(e),
        }) == parse_profile(buf@),
{
    let (tag, s1) = match take_u8(buf) {
        Err(e) => return Err(e),
        Ok(x) => x,
    };
    if tag > ROLE_STORAGE {
        return Err(WireError::UnknownTag { what: Tag::MemberRole, tag });
    }
    let (capacity_weight, s2) = match take_u32(s1) {
        Err(e) => return Err(e),
        Ok(x) => x,
    };
    let (store_address, s3) = match take_text(s2) {
        Err(e) => return Err(e),
        Ok(x) => x,
    };
    let (log_id, rest) = match take_id(s3) {
        Err(e) => return Err(e),
        Ok(x) => x,
    };
    let role = if tag == ROLE_COMPUTE {
        MemberRole::Compute
    } else {
        MemberRole::Storage
    };
    Ok((MemberProfile { role, capacity_weight, store_address, log_id }, rest))
}

/// Reading gives back what a member offers as it was written.
pub proof fn law_profile_round_trip(p: ProfileModel, rest: Seq<u8>)
    requires
        text_fits(p.store_address),
    ensures
        parse_profile(profile_bytes(p) + rest) == Ok::<(ProfileModel, Seq<u8>), WireError>(
            (p, rest),
        ),
{
    let t3 = p.log_id.bytes() + rest;
    let t2 = text_field(p.store_address) + t3;
    let t1 = le32(p.capacity_weight) + t2;
    lemma_append_associates(text_field(p.store_address), p.log_id.bytes(), rest);
    lemma_append_associates(
        le32(p.capacity_weight),
        text_field(p.store_address) + p.log_id.bytes(),
        rest,
    );
    lemma_append_associates(
        seq![role_byte(p.role)],
        le32(p.capacity_weight) + (text_field(p.store_address) + p.log_id.bytes()),
        rest,
    );
    lemma_parse_u8(role_byte(p.role), t1);
    lemma_parse_u32(p.capacity_weight, t2);
    lemma_parse_text(p.store_address, t3);
    lemma_parse_id(p.log_id, rest);
}

/// A fact in a list: how a member is, and what it offers.
impl Wire for MemberFact {
    type Model = (MemberModel, ProfileModel);

    open spec fn model(self) -> (MemberModel, ProfileModel) {
        (self.update@, self.profile@)
    }

    open spec fn bytes_of(m: (MemberModel, ProfileModel)) -> Seq<u8> {
        MemberUpdate::bytes_of(m.0) + profile_bytes(m.1)
    }

    open spec fn parse(s: Seq<u8>) -> Parsed<(MemberModel, ProfileModel)> {
        match MemberUpdate::parse(s) {
            Err(e) => Err(e),
            Ok((member, s1)) => match parse_profile(s1) {
                Err(e) => Err(e),
                Ok((profile, rest)) => Ok(((member, profile), rest)),
            },
        }
    }

    open spec fn fits(m: (MemberModel, ProfileModel)) -> bool {
        MemberUpdate::fits(m.0) && text_fits(m.1.store_address)
    }

    fn put(&self, out: &mut Vec<u8>) {
        broadcast use lemma_append_associates;

        self.update.put(out);
        put_profile(out, &self.profile);
    }

    fn take(buf: &[u8]) -> (r: Result<(Self, &[u8]), WireError>) {
        let (update, s1) = match MemberUpdate::take(buf) {
            Err(e) => return Err(e),
            Ok(x) => x,
        };
        let (profile, rest) = match take_profile(s1) {
            Err(e) => return Err(e),
            Ok(x) => x,
        };
        Ok((MemberFact { update, profile }, rest))
    }

    proof fn lemma_round_trip(m: (MemberModel, ProfileModel), rest: Seq<u8>) {
        let t1 = profile_bytes(m.1) + rest;
        lemma_append_associates(MemberUpdate::bytes_of(m.0), profile_bytes(m.1), rest);
        MemberUpdate::lemma_round_trip(m.0, t1);
        law_profile_round_trip(m.1, rest);
    }
}

/// A numbered change in a list: its bytes with their length.
impl Wire for (u64, RingMutation) {
    type Model = (u64, RingMutation);

    open spec fn model(self) -> (u64, RingMutation) {
        self
    }

    open spec fn bytes_of(m: (u64, RingMutation)) -> Seq<u8> {
        bytes_field(mutation_bytes(m.0, m.1))
    }

    open spec fn parse(s: Seq<u8>) -> Parsed<(u64, RingMutation)> {
        match parse_bytes(s) {
            Err(e) => Err(e),
            Ok((b, rest)) => match parse_mutation(b) {
                Err(e) => Err(e),
                Ok(m) => Ok((m, rest)),
            },
        }
    }

    open spec fn fits(m: (u64, RingMutation)) -> bool {
        true
    }

    fn put(&self, out: &mut Vec<u8>) {
        put_bytes(out, encode_ring_mutation_record(self.0, &self.1).as_slice());
    }

    fn take(buf: &[u8]) -> (r: Result<(Self, &[u8]), WireError>) {
        let (b, rest) = match take_bytes(buf) {
            Err(e) => return Err(e),
            Ok(x) => x,
        };
        match decode_ring_mutation_record(b.as_slice()) {
            Err(e) => Err(e),
            Ok(m) => Ok((m, rest)),
        }
    }

    proof fn lemma_round_trip(m: (u64, RingMutation), rest: Seq<u8>) {
        lemma_mutation_len(m.0, m.1);
        lemma_parse_bytes(mutation_bytes(m.0, m.1), rest);
        law_mutation_round_trip(m.0, m.1);
    }
}

proof fn lemma_mutation_len(epoch: u64, m: RingMutation)
    ensures
        mutation_bytes(epoch, m).len() <= JOIN_LEN,
{
    lemma_le_len(epoch as nat, 8);
    match m {
        RingMutation::Join { node_id, thread_count } => {
            lemma_le_len(node_id.0 as nat, 8);
            lemma_le_len(thread_count as nat, 4);
        },
        RingMutation::Leave { node_id } => {
            lemma_le_len(node_id.0 as nat, 8);
        },
    }
}

/// What a gossip message is for.
#[derive(Debug, Clone, Copy, PartialEq, Eq, Structural)]
pub enum GossipKind {
    Ping,
    /// A request to ping `target` on the sender's behalf.
    PingReq { target: NodeId },
    Ack,
}

/// A gossip message, with what goes along with it.
#[derive(Debug, PartialEq, Eq)]
pub struct GossipMessage {
    pub kind: GossipKind,
    pub facts: Vec<MemberFact>,
    pub mutations: Vec<(u64, RingMutation)>,
}

/// The mathematical content of a [`GossipMessage`].
pub struct GossipMessageModel {
    pub kind: GossipKind,
    pub facts: Seq<(MemberModel, ProfileModel)>,
    pub mutations: Seq<(u64, RingMutation)>,
}

impl View for GossipMessage {
    type V = GossipMessageModel;

    open spec fn view(&self) -> GossipMessageModel {
        GossipMessageModel {
            kind: self.kind,
            facts: models(self.facts@),
            mutations: self.mutations@,
        }
    }
}

pub const GOSSIP_PING: u8 = 0;

pub const GOSSIP_PING_REQ: u8 = 1;

pub const GOSSIP_ACK: u8 = 2;

pub open spec fn gossip_kind_bytes(kind: GossipKind) -> Seq<u8> {
    match kind {
        GossipKind::Ping => seq![GOSSIP_PING],
        GossipKind::PingReq { target } => seq![GOSSIP_PING_REQ] + le64(target.0),
        GossipKind::Ack => seq![GOSSIP_ACK],
    }
}

pub open spec fn parse_gossip_kind(s: Seq<u8>) -> Parsed<GossipKind> {
    match parse_u8(s) {
        Err(e) => Err(e),
        Ok((tag, rest)) => if tag == GOSSIP_PING {
            Ok((GossipKind::Ping, rest))
        } else if tag == GOSSIP_PING_REQ {
            match parse_u64(rest) {
                Err(e) => Err(e),
                Ok((target, rest)) => Ok((GossipKind::PingReq { target: NodeId(target) }, rest)),
            }
        } else if tag == GOSSIP_ACK {
            Ok((GossipKind::Ack, rest))
        } else {
            Err(WireError::UnknownTag { what: Tag::Gossip, tag })
        },
    }
}

/// The bytes of a message.
pub open spec fn gossip_bytes(m: GossipMessageModel) -> Seq<u8> {
    gossip_kind_bytes(m.kind) + (list_field::<MemberFact>(m.facts) + list_field::<
        (u64, RingMutation),
    >(m.mutations))
}

pub open spec fn parse_gossip_fields(s: Seq<u8>) -> Parsed<GossipMessageModel> {
    match parse_gossip_kind(s) {
        Err(e) => Err(e),
        Ok((kind, s1)) => match parse_list::<MemberFact>(s1) {
            Err(e) => Err(e),
            Ok((facts, s2)) => match parse_list::<(u64, RingMutation)>(s2) {
                Err(e) => Err(e),
                Ok((mutations, s3)) => Ok((GossipMessageModel { kind, facts, mutations }, s3)),
            },
        },
    }
}

/// The message that bytes spell.
pub open spec fn parse_gossip(s: Seq<u8>) -> Result<GossipMessageModel, WireError> {
    whole(parse_gossip_fields(s), Subject::Gossip)
}

pub fn encode_gossip_message(message: &GossipMessage) -> (buf: Vec<u8>)
    ensures
        buf@ == gossip_bytes(message@),
{
    broadcast use lemma_append_associates;

    let mut buf: Vec<u8> = Vec::new();
    match message.kind {
        GossipKind::Ping => put_u8(&mut buf, GOSSIP_PING),
        GossipKind::PingReq { target } => {
            put_u8(&mut buf, GOSSIP_PING_REQ);
            put_u64(&mut buf, target.0);
        },
        GossipKind::Ack => put_u8(&mut buf, GOSSIP_ACK),
    }
    assert(buf@ =~= gossip_kind_bytes(message.kind));
    put_list(&mut buf, message.facts.as_slice());
    put_list(&mut buf, message.mutations.as_slice());
    assert(models(message.mutations@) =~= message.mutations@);
    buf
}

pub fn decode_gossip_message(buf: &[u8]) -> (r: Result<GossipMessage, WireError>)
    ensures
        (match r {
            Ok(m) => Ok::<GossipMessageModel, WireError>(m@),
            Err(e) => Err(e),
        }) == parse_gossip(buf@),
{
    let (tag, s0) = match take_u8(buf) {
        Err(e) => return Err(e),
        Ok(x) => x,
    };
    let (kind, s1) = if tag == GOSSIP_PING {
        (GossipKind::Ping, s0)
    } else if tag == GOSSIP_PING_REQ {
        match take_u64(s0) {
            Err(e) => return Err(e),
            Ok((target, rest)) => (GossipKind::PingReq { target: NodeId(target) }, rest),
        }
    } else if tag == GOSSIP_ACK {
        (GossipKind::Ack, s0)
    } else {
        return Err(WireError::UnknownTag { what: Tag::Gossip, tag });
    };
    let (facts, s2) = match take_list::<MemberFact>(s1) {
        Err(e) => return Err(e),
        Ok(x) => x,
    };
    let (mutations, s3) = match take_list::<(u64, RingMutation)>(s2) {
        Err(e) => return Err(e),
        Ok(x) => x,
    };
    assert(models(mutations@) =~= mutations@);
    if s3.len() > 0 {
        return Err(WireError::TrailingBytes { what: Subject::Gossip, count: s3.len() as u64 });
    }
    Ok(GossipMessage { kind, facts, mutations })
}

/// Decoding gives back the message that was encoded, where its lengths fit
/// their prefixes of 32 bits.
#[verifier::spinoff_prover]
pub proof fn law_gossip_round_trip(m: GossipMessageModel)
    requires
        m.facts.len() <= u32::MAX,
        m.mutations.len() <= u32::MAX,
        all_fit::<MemberFact>(m.facts),
    ensures
        parse_gossip(gossip_bytes(m)) == Ok::<GossipMessageModel, WireError>(m),
{
    let t2 = list_field::<(u64, RingMutation)>(m.mutations);
    let t1 = list_field::<MemberFact>(m.facts) + t2;
    lemma_parse_gossip_kind(m.kind, t1);
    assert(all_fit::<(u64, RingMutation)>(m.mutations));
    lemma_two_lists::<MemberFact, (u64, RingMutation)>(m.facts, m.mutations);
}

proof fn lemma_two_lists<A: Wire, B: Wire>(a: Seq<A::Model>, b: Seq<B::Model>)
    requires
        a.len() <= u32::MAX,
        b.len() <= u32::MAX,
        all_fit::<A>(a),
        all_fit::<B>(b),
    ensures
        parse_list::<A>(list_field::<A>(a) + list_field::<B>(b)) == Ok::<
            (Seq<A::Model>, Seq<u8>),
            WireError,
        >((a, list_field::<B>(b))),
        parse_list::<B>(list_field::<B>(b)) == Ok::<(Seq<B::Model>, Seq<u8>), WireError>(
            (b, Seq::empty()),
        ),
{
    lemma_list_round_trip::<A>(a, list_field::<B>(b));
    lemma_list_round_trip::<B>(b, Seq::empty());
    assert(list_field::<B>(b) + Seq::<u8>::empty() =~= list_field::<B>(b));
}

proof fn lemma_parse_gossip_kind(kind: GossipKind, rest: Seq<u8>)
    ensures
        parse_gossip_kind(gossip_kind_bytes(kind) + rest) == Ok::<
            (GossipKind, Seq<u8>),
            WireError,
        >((kind, rest)),
{
    match kind {
        GossipKind::Ping => lemma_parse_u8(GOSSIP_PING, rest),
        GossipKind::PingReq { target } => {
            lemma_append_associates(seq![GOSSIP_PING_REQ], le64(target.0), rest);
            lemma_parse_u8(GOSSIP_PING_REQ, le64(target.0) + rest);
            lemma_parse_u64(target.0, rest);
        },
        GossipKind::Ack => lemma_parse_u8(GOSSIP_ACK, rest),
    }
}

} // verus!
