//! Leaderboard operations, queries and results, on the wire.

use crate::bytes::{
    at, bytes_field, le32, le64, lemma_append_associates, lemma_parse_bytes, lemma_parse_u32,
    lemma_parse_u64, lemma_parse_u8, lemma_read_bytes, lemma_read_integers, lemma_split_joined,
    parse_bytes, parse_u32, parse_u64, parse_u8, put_bytes, put_raw, put_u32, put_u64, put_u8,
    rest_of, take_bytes, take_u32, take_u64, take_u8, whole, Parsed,
};
use crate::datum::{
    lemma_parse_id, lemma_parse_optional_id, lemma_read_id, lemma_read_optional_id,
    optional_id_field, parse_id, parse_optional_id,
    put_id, put_optional_id, take_id, take_optional_id, DatumId,
};
use crate::list_wire::{
    all_fit, lemma_list_round_trip, lemma_read_ids, list_field, models, parse_list, put_list, take_list, Wire,
};
use crate::rk::{parse_rank_key, RK_RANK_KEY_LEN};
use crate::wire_error::{Missing, Part, Subject, Tag, WireError, placed};
use vstd::array::array_as_slice;
use vstd::prelude::*;

verus! {

/// A change of a leaderboard.
#[derive(Debug, Clone, PartialEq, Eq)]
pub enum LbExecuteOp {
    Update {
        player_id: DatumId,
        display: Vec<u8>,
        rank_key: [u8; 8],
        friend_ids: Vec<DatumId>,
        top: u32,
        window: u32,
    },
    Remove { player_id: DatumId },
}

/// A question to a leaderboard.
#[derive(Debug, Clone, PartialEq, Eq)]
pub struct LbQueryReq {
    pub top: u32,
    pub bottom: u32,
    pub around_player: Option<DatumId>,
    pub window: u32,
    pub friend_ids: Vec<DatumId>,
}

/// A player's place in a list of a leaderboard.
#[derive(Debug, Clone, PartialEq, Eq)]
pub struct LbEntry {
    pub rank_key: [u8; 8],
    pub player_id: DatumId,
    pub display: Vec<u8>,
}

/// A friend's place on a leaderboard; `rank` counts from the best, which has
/// rank zero.
#[derive(Debug, Clone, PartialEq, Eq)]
pub struct LbFriendRank {
    pub player_id: DatumId,
    pub rank: u64,
    pub rank_key: [u8; 8],
    pub display: Vec<u8>,
}

/// A leaderboard's answer. `player_rank` counts from the best and is absent
/// behind a removal or a query around nobody; `bottom` is empty behind a
/// change.
#[derive(Debug, Clone, PartialEq, Eq)]
pub struct LbResult {
    pub total: u64,
    pub player_rank: Option<u64>,
    pub top: Vec<LbEntry>,
    pub bottom: Vec<LbEntry>,
    pub around: Vec<LbEntry>,
    pub friends: Vec<LbFriendRank>,
}

/// The mathematical content of an [`LbExecuteOp`].
pub enum LbExecuteModel {
    Update {
        player_id: DatumId,
        display: Seq<u8>,
        rank_key: Seq<u8>,
        friend_ids: Seq<DatumId>,
        top: u32,
        window: u32,
    },
    Remove { player_id: DatumId },
}

/// The mathematical content of an [`LbQueryReq`].
pub struct LbQueryModel {
    pub top: u32,
    pub bottom: u32,
    pub around_player: Option<DatumId>,
    pub window: u32,
    pub friend_ids: Seq<DatumId>,
}

/// The mathematical content of an [`LbEntry`].
pub struct LbEntryModel {
    pub rank_key: Seq<u8>,
    pub player_id: DatumId,
    pub display: Seq<u8>,
}

/// The mathematical content of an [`LbFriendRank`].
pub struct LbFriendModel {
    pub player_id: DatumId,
    pub rank: u64,
    pub rank_key: Seq<u8>,
    pub display: Seq<u8>,
}

/// The mathematical content of an [`LbResult`].
pub struct LbResultModel {
    pub total: u64,
    pub player_rank: Option<u64>,
    pub top: Seq<LbEntryModel>,
    pub bottom: Seq<LbEntryModel>,
    pub around: Seq<LbEntryModel>,
    pub friends: Seq<LbFriendModel>,
}

impl View for LbExecuteOp {
    type V = LbExecuteModel;

    open spec fn view(&self) -> LbExecuteModel {
        match self {
            LbExecuteOp::Update { player_id, display, rank_key, friend_ids, top, window } => {
                LbExecuteModel::Update {
                    player_id: *player_id,
                    display: display@,
                    rank_key: rank_key@,
                    friend_ids: friend_ids@,
                    top: *top,
                    window: *window,
                }
            },
            LbExecuteOp::Remove { player_id } => LbExecuteModel::Remove { player_id: *player_id },
        }
    }
}

impl View for LbQueryReq {
    type V = LbQueryModel;

    open spec fn view(&self) -> LbQueryModel {
        LbQueryModel {
            top: self.top,
            bottom: self.bottom,
            around_player: self.around_player,
            window: self.window,
            friend_ids: self.friend_ids@,
        }
    }
}

impl View for LbResult {
    type V = LbResultModel;

    open spec fn view(&self) -> LbResultModel {
        LbResultModel {
            total: self.total,
            player_rank: self.player_rank,
            top: models(self.top@),
            bottom: models(self.bottom@),
            around: models(self.around@),
            friends: models(self.friends@),
        }
    }
}

// ---- rank keys ----

/// What a reader of a rank key returned, viewed.
pub open spec fn rank_key_at(r: Result<([u8; 8], &[u8]), WireError>) -> Parsed<Seq<u8>> {
    match r {
        Ok((key, rest)) => Ok((key@, rest@)),
        Err(e) => Err(e),
    }
}

pub fn take_rank_key(buf: &[u8]) -> (r: Result<([u8; 8], &[u8]), WireError>)
    ensures
        rank_key_at(r) == parse_rank_key(buf@),
{
    if buf.len() < RK_RANK_KEY_LEN {
        return Err(WireError::Truncated { part: Part::RankKey, left: buf.len() as u64 });
    }
    let mut key: [u8; 8] = [0u8; 8];
    let mut i: usize = 0;
    while i < 8
        invariant
            i <= 8 <= buf.len(),
            forall|j: int| 0 <= j < i ==> key@[j] == buf@[j],
        decreases 8 - i,
    {
        key[i] = buf[i];
        i = i + 1;
    }
    assert(key@ =~= buf@.take(8));
    Ok((key, rest_of(buf, 8)))
}

pub broadcast proof fn lemma_parse_rank_key(key: Seq<u8>, rest: Seq<u8>)
    requires
        key.len() == RK_RANK_KEY_LEN,
    ensures
        #[trigger] parse_rank_key(key + rest) == Ok::<(Seq<u8>, Seq<u8>), WireError>((key, rest)),
{
    broadcast use lemma_split_joined;

}

// ---- changes ----

pub const LB_OP_UPDATE: u8 = 0;

pub const LB_OP_REMOVE: u8 = 1;

/// The bytes of a change.
pub open spec fn lb_execute_bytes(m: LbExecuteModel) -> Seq<u8> {
    match m {
        LbExecuteModel::Update { player_id, display, rank_key, friend_ids, top, window } => {
            seq![LB_OP_UPDATE] + (player_id.bytes() + (rank_key + (bytes_field(display) + (
            list_field::<DatumId>(friend_ids) + (le32(top) + le32(window))))))
        },
        LbExecuteModel::Remove { player_id } => seq![LB_OP_REMOVE] + player_id.bytes(),
    }
}

/// The fields of an update behind its tag.
pub open spec fn parse_lb_update(s: Seq<u8>) -> Parsed<LbExecuteModel> {
    match parse_id(s) {
        Err(e) => Err(e),
        Ok((player_id, s1)) => match parse_rank_key(s1) {
            Err(e) => Err(e),
            Ok((rank_key, s2)) => match parse_bytes(s2) {
                Err(e) => Err(e),
                Ok((display, s3)) => match parse_list::<DatumId>(s3) {
                    Err(e) => Err(e),
                    Ok((friend_ids, s4)) => match parse_u32(s4) {
                        Err(e) => Err(e),
                        Ok((top, s5)) => match parse_u32(s5) {
                            Err(e) => Err(e),
                            Ok((window, s6)) => Ok(
                                (
                                    LbExecuteModel::Update {
                                        player_id,
                                        display,
                                        rank_key,
                                        friend_ids,
                                        top,
                                        window,
                                    },
                                    s6,
                                ),
                            ),
                        },
                    },
                },
            },
        },
    }
}

/// The change that bytes spell.
pub open spec fn parse_lb_execute(s: Seq<u8>) -> Result<LbExecuteModel, WireError> {
    if s.len() == 0 {
        Err(WireError::Empty { what: Subject::LbExecute })
    } else if s[0] == LB_OP_UPDATE {
        placed(whole(parse_lb_update(s.skip(1)), Subject::LbExecute), s.len())
    } else if s[0] == LB_OP_REMOVE {
        placed(
            whole(
                match parse_id(s.skip(1)) {
                    Err(e) => Err(e),
                    Ok((player_id, rest)) => Ok((LbExecuteModel::Remove { player_id }, rest)),
                },
                Subject::LbExecute,
            ),
            s.len(),
        )
    } else {
        Err(WireError::UnknownTag { what: Tag::LbExecute, tag: s[0] })
    }
}

/// A decoded change, viewed.
pub open spec fn lb_execute_view(r: Result<LbExecuteOp, WireError>) -> Result<
    LbExecuteModel,
    WireError,
> {
    match r {
        Ok(op) => Ok(op@),
        Err(e) => Err(e),
    }
}

pub fn put_lb_execute_op(out: &mut Vec<u8>, op: &LbExecuteOp)
    ensures
        final(out)@ == old(out)@ + lb_execute_bytes(op@),
{
    broadcast use lemma_append_associates;

    match op {
        LbExecuteOp::Update { player_id, display, rank_key, friend_ids, top, window } => {
            put_u8(out, LB_OP_UPDATE);
            put_id(out, *player_id);
            put_raw(out, array_as_slice(rank_key));
            put_bytes(out, display.as_slice());
            put_list(out, friend_ids.as_slice());
            put_u32(out, *top);
            put_u32(out, *window);
            assert(models(friend_ids@) =~= friend_ids@);
        },
        LbExecuteOp::Remove { player_id } => {
            put_u8(out, LB_OP_REMOVE);
            put_id(out, *player_id);
        },
    }
}

pub fn encode_lb_execute_op(op: &LbExecuteOp) -> (buf: Vec<u8>)
    ensures
        buf@ == lb_execute_bytes(op@),
{
    let mut buf: Vec<u8> = Vec::new();
    put_lb_execute_op(&mut buf, op);
    assert(buf@ =~= lb_execute_bytes(op@));
    buf
}

/// What a reader of a change returned, viewed.
spec fn lb_execute_at(r: Result<(LbExecuteOp, &[u8]), WireError>) -> Parsed<LbExecuteModel> {
    match r {
        Ok((op, rest)) => Ok((op@, rest@)),
        Err(e) => Err(e),
    }
}

fn take_lb_update(buf: &[u8]) -> (r: Result<(LbExecuteOp, &[u8]), WireError>)
    ensures
        lb_execute_at(r) == parse_lb_update(buf@),
{
    let (player_id, s1) = match take_id(buf) {
        Err(e) => return Err(e),
        Ok(x) => x,
    };
    let (rank_key, s2) = match take_rank_key(s1) {
        Err(e) => return Err(e),
        Ok(x) => x,
    };
    let (display, s3) = match take_bytes(s2) {
        Err(e) => return Err(e),
        Ok(x) => x,
    };
    let (friend_ids, s4) = match take_list::<DatumId>(s3) {
        Err(e) => return Err(e),
        Ok(x) => x,
    };
    assert(models(friend_ids@) =~= friend_ids@);
    let (top, s5) = match take_u32(s4) {
        Err(e) => return Err(e),
        Ok(x) => x,
    };
    let (window, s6) = match take_u32(s5) {
        Err(e) => return Err(e),
        Ok(x) => x,
    };
    Ok((LbExecuteOp::Update { player_id, display, rank_key, friend_ids, top, window }, s6))
}

pub fn decode_lb_execute_op(buf: &[u8]) -> (r: Result<LbExecuteOp, WireError>)
    ensures
        lb_execute_view(r) == parse_lb_execute(buf@),
{
    if buf.len() == 0 {
        return Err(WireError::Empty { what: Subject::LbExecute });
    }
    let tag: u8 = buf[0];
    let body = rest_of(buf, 1);
    let (op, rest) = if tag == LB_OP_UPDATE {
        match take_lb_update(body) {
            Err(e) => return Err(e.locate(buf.len())),
            Ok(x) => x,
        }
    } else if tag == LB_OP_REMOVE {
        match take_id(body) {
            Err(e) => return Err(e.locate(buf.len())),
            Ok((player_id, rest)) => (LbExecuteOp::Remove { player_id }, rest),
        }
    } else {
        return Err(WireError::UnknownTag { what: Tag::LbExecute, tag });
    };
    if rest.len() > 0 {
        Err(WireError::TrailingBytes { what: Subject::LbExecute, count: rest.len() as u64 })
    } else {
        Ok(op)
    }
}

/// Whether the lengths in a change fit their prefixes of 32 bits.
pub open spec fn lb_execute_fits(m: LbExecuteModel) -> bool {
    match m {
        LbExecuteModel::Update { display, rank_key, friend_ids, .. } => {
            display.len() <= u32::MAX && rank_key.len() == RK_RANK_KEY_LEN && friend_ids.len()
                <= u32::MAX
        },
        LbExecuteModel::Remove { .. } => true,
    }
}

/// Decoding gives back the change that was encoded.
pub proof fn law_lb_execute_round_trip(m: LbExecuteModel)
    requires
        lb_execute_fits(m),
    ensures
        parse_lb_execute(lb_execute_bytes(m)) == Ok::<LbExecuteModel, WireError>(m),
{
    match m {
        LbExecuteModel::Update { player_id, display, rank_key, friend_ids, top, window } => {
            let t5 = le32(window);
            let t4 = le32(top) + t5;
            let t3 = list_field::<DatumId>(friend_ids) + t4;
            let t2 = bytes_field(display) + t3;
            let t1 = rank_key + t2;
            let t0 = player_id.bytes() + t1;
            assert(lb_execute_bytes(m).skip(1) =~= t0);
            lemma_parse_id(player_id, t1);
            lemma_parse_rank_key(rank_key, t2);
            lemma_parse_bytes(display, t3);
            lemma_list_round_trip::<DatumId>(friend_ids, t4);
            lemma_parse_u32(top, t5);
            assert(t5 + seq![] =~= t5);
            lemma_parse_u32(window, seq![]);
        },
        LbExecuteModel::Remove { player_id } => {
            assert(lb_execute_bytes(m).skip(1) =~= player_id.bytes() + seq![]);
            lemma_parse_id(player_id, seq![]);
        },
    }
}

/// Bytes that are read as a change are its encoding.
pub proof fn law_lb_execute_is_its_encoding(s: Seq<u8>)
    ensures
        parse_lb_execute(s) matches Ok(m) ==> s == lb_execute_bytes(m),
{
    if s.len() > 0 {
        let s0 = s.skip(1);
        assert(s =~= seq![s[0]] + s0);
        lemma_read_id(s0);
        if s[0] == LB_OP_UPDATE && parse_lb_execute(s) is Ok {
            let (player_id, s1) = parse_id(s0)->Ok_0;
            let (rank_key, s2) = parse_rank_key(s1)->Ok_0;
            let (display, s3) = parse_bytes(s2)->Ok_0;
            let (friend_ids, s4) = parse_list::<DatumId>(s3)->Ok_0;
            let (top, s5) = parse_u32(s4)->Ok_0;
            let (window, s6) = parse_u32(s5)->Ok_0;
            assert(s1 =~= rank_key + s2);
            lemma_read_bytes(s2);
            lemma_read_ids(s3);
            lemma_read_integers(s4);
            lemma_read_integers(s5);
            assert(s5 =~= le32(window));
        } else if s[0] == LB_OP_REMOVE && parse_lb_execute(s) is Ok {
            let (player_id, rest) = parse_id(s0)->Ok_0;
            assert(s0 =~= player_id.bytes());
        }
    }
}

// ---- questions ----

/// The bytes of a question.
pub open spec fn lb_query_bytes(m: LbQueryModel) -> Seq<u8> {
    le32(m.top) + (le32(m.bottom) + (optional_id_field(m.around_player) + (le32(m.window)
        + list_field::<DatumId>(m.friend_ids))))
}

pub open spec fn parse_lb_query_fields(s: Seq<u8>) -> Parsed<LbQueryModel> {
    match parse_u32(s) {
        Err(e) => Err(e),
        Ok((top, s1)) => match parse_u32(s1) {
            Err(e) => Err(e),
            Ok((bottom, s2)) => match parse_optional_id(s2) {
                Err(e) => Err(e.of_flag(Tag::AroundPlayer, Missing::AroundPlayerFlag)),
                Ok((around_player, s3)) => match parse_u32(s3) {
                    Err(e) => Err(e),
                    Ok((window, s4)) => match parse_list::<DatumId>(s4) {
                        Err(e) => Err(e),
                        Ok((friend_ids, s5)) => Ok(
                            (LbQueryModel { top, bottom, around_player, window, friend_ids }, s5),
                        ),
                    },
                },
            },
        },
    }
}

/// The question that bytes spell.
pub open spec fn parse_lb_query(s: Seq<u8>) -> Result<LbQueryModel, WireError> {
    placed(whole(parse_lb_query_fields(s), Subject::LbQuery), s.len())
}

/// A decoded question, viewed.
pub open spec fn lb_query_view(r: Result<LbQueryReq, WireError>) -> Result<
    LbQueryModel,
    WireError,
> {
    match r {
        Ok(q) => Ok(q@),
        Err(e) => Err(e),
    }
}

pub fn put_lb_query_req(out: &mut Vec<u8>, q: &LbQueryReq)
    ensures
        final(out)@ == old(out)@ + lb_query_bytes(q@),
{
    broadcast use lemma_append_associates;

    put_u32(out, q.top);
    put_u32(out, q.bottom);
    put_optional_id(out, q.around_player);
    put_u32(out, q.window);
    put_list(out, q.friend_ids.as_slice());
    assert(models(q.friend_ids@) =~= q.friend_ids@);
}

pub fn encode_lb_query_req(q: &LbQueryReq) -> (buf: Vec<u8>)
    ensures
        buf@ == lb_query_bytes(q@),
{
    let mut buf: Vec<u8> = Vec::new();
    put_lb_query_req(&mut buf, q);
    assert(buf@ =~= lb_query_bytes(q@));
    buf
}

pub fn decode_lb_query_req(buf: &[u8]) -> (r: Result<LbQueryReq, WireError>)
    ensures
        lb_query_view(r) == parse_lb_query(buf@),
{
    let (top, s1) = match take_u32(buf) {
        Err(e) => return Err(e.locate(buf.len())),
        Ok(x) => x,
    };
    let (bottom, s2) = match take_u32(s1) {
        Err(e) => return Err(e.locate(buf.len())),
        Ok(x) => x,
    };
    let (around_player, s3) = match take_optional_id(s2) {
        Err(e) => return Err(
            e.in_flag(Tag::AroundPlayer, Missing::AroundPlayerFlag).locate(buf.len()),
        ),
        Ok(x) => x,
    };
    let (window, s4) = match take_u32(s3) {
        Err(e) => return Err(e.locate(buf.len())),
        Ok(x) => x,
    };
    let (friend_ids, s5) = match take_list::<DatumId>(s4) {
        Err(e) => return Err(e.locate(buf.len())),
        Ok(x) => x,
    };
    assert(models(friend_ids@) =~= friend_ids@);
    if s5.len() > 0 {
        return Err(WireError::TrailingBytes { what: Subject::LbQuery, count: s5.len() as u64 });
    }
    Ok(LbQueryReq { top, bottom, around_player, window, friend_ids })
}

/// Decoding gives back the question that was encoded.
pub proof fn law_lb_query_round_trip(m: LbQueryModel)
    requires
        m.friend_ids.len() <= u32::MAX,
    ensures
        parse_lb_query(lb_query_bytes(m)) == Ok::<LbQueryModel, WireError>(m),
{
    let t4 = list_field::<DatumId>(m.friend_ids);
    let t3 = le32(m.window) + t4;
    let t2 = optional_id_field(m.around_player) + t3;
    let t1 = le32(m.bottom) + t2;
    lemma_parse_u32(m.top, t1);
    lemma_parse_u32(m.bottom, t2);
    lemma_parse_optional_id(m.around_player, t3);
    lemma_parse_u32(m.window, t4);
    assert(t4 + seq![] =~= t4);
    lemma_list_round_trip::<DatumId>(m.friend_ids, seq![]);
}

/// Bytes that are read as a question are its encoding.
pub proof fn law_lb_query_is_its_encoding(s: Seq<u8>)
    ensures
        parse_lb_query(s) matches Ok(m) ==> s == lb_query_bytes(m),
{
    if parse_lb_query(s) is Ok {
        let (top, s1) = parse_u32(s)->Ok_0;
        let (bottom, s2) = parse_u32(s1)->Ok_0;
        let (around_player, s3) = parse_optional_id(s2)->Ok_0;
        let (window, s4) = parse_u32(s3)->Ok_0;
        let (friend_ids, s5) = parse_list::<DatumId>(s4)->Ok_0;
        lemma_read_integers(s);
        lemma_read_integers(s1);
        lemma_read_optional_id(s2);
        lemma_read_integers(s3);
        lemma_read_ids(s4);
        assert(s4 =~= list_field::<DatumId>(friend_ids));
    }
}

// ---- answers ----

impl Wire for LbEntry {
    type Model = LbEntryModel;

    open spec fn model(self) -> LbEntryModel {
        LbEntryModel {
            rank_key: self.rank_key@,
            player_id: self.player_id,
            display: self.display@,
        }
    }

    open spec fn bytes_of(m: LbEntryModel) -> Seq<u8> {
        m.rank_key + (m.player_id.bytes() + bytes_field(m.display))
    }

    open spec fn parse(s: Seq<u8>) -> Parsed<LbEntryModel> {
        match parse_rank_key(s) {
            Err(e) => Err(e),
            Ok((rank_key, s1)) => match parse_id(s1) {
                Err(e) => Err(e),
                Ok((player_id, s2)) => match parse_bytes(s2) {
                    Err(e) => Err(e),
                    Ok((display, s3)) => Ok((LbEntryModel { rank_key, player_id, display }, s3)),
                },
            },
        }
    }

    open spec fn fits(m: LbEntryModel) -> bool {
        m.rank_key.len() == RK_RANK_KEY_LEN && m.display.len() <= u32::MAX
    }

    fn put(&self, out: &mut Vec<u8>) {
        broadcast use lemma_append_associates;

        put_raw(out, array_as_slice(&self.rank_key));
        put_id(out, self.player_id);
        put_bytes(out, self.display.as_slice());
    }

    fn take(buf: &[u8]) -> (r: Result<(Self, &[u8]), WireError>) {
        let (rank_key, s1) = match take_rank_key(buf) {
            Err(e) => return Err(e),
            Ok(x) => x,
        };
        let (player_id, s2) = match take_id(s1) {
            Err(e) => return Err(e),
            Ok(x) => x,
        };
        let (display, s3) = match take_bytes(s2) {
            Err(e) => return Err(e),
            Ok(x) => x,
        };
        Ok((LbEntry { rank_key, player_id, display }, s3))
    }

    proof fn lemma_round_trip(m: LbEntryModel, rest: Seq<u8>) {
        broadcast use {
            lemma_append_associates,
            lemma_parse_rank_key,
            lemma_parse_id,
            lemma_parse_bytes,
        };

    }
}

impl Wire for LbFriendRank {
    type Model = LbFriendModel;

    open spec fn model(self) -> LbFriendModel {
        LbFriendModel {
            player_id: self.player_id,
            rank: self.rank,
            rank_key: self.rank_key@,
            display: self.display@,
        }
    }

    open spec fn bytes_of(m: LbFriendModel) -> Seq<u8> {
        m.player_id.bytes() + (le64(m.rank) + (m.rank_key + bytes_field(m.display)))
    }

    open spec fn parse(s: Seq<u8>) -> Parsed<LbFriendModel> {
        match parse_id(s) {
            Err(e) => Err(e),
            Ok((player_id, s1)) => match parse_u64(s1) {
                Err(e) => Err(e),
                Ok((rank, s2)) => match parse_rank_key(s2) {
                    Err(e) => Err(e),
                    Ok((rank_key, s3)) => match parse_bytes(s3) {
                        Err(e) => Err(e),
                        Ok((display, s4)) => Ok(
                            (LbFriendModel { player_id, rank, rank_key, display }, s4),
                        ),
                    },
                },
            },
        }
    }

    open spec fn fits(m: LbFriendModel) -> bool {
        m.rank_key.len() == RK_RANK_KEY_LEN && m.display.len() <= u32::MAX
    }

    fn put(&self, out: &mut Vec<u8>) {
        broadcast use lemma_append_associates;

        put_id(out, self.player_id);
        put_u64(out, self.rank);
        put_raw(out, array_as_slice(&self.rank_key));
        put_bytes(out, self.display.as_slice());
    }

    fn take(buf: &[u8]) -> (r: Result<(Self, &[u8]), WireError>) {
        let (player_id, s1) = match take_id(buf) {
            Err(e) => return Err(e),
            Ok(x) => x,
        };
        let (rank, s2) = match take_u64(s1) {
            Err(e) => return Err(e),
            Ok(x) => x,
        };
        let (rank_key, s3) = match take_rank_key(s2) {
            Err(e) => return Err(e),
            Ok(x) => x,
        };
        let (display, s4) = match take_bytes(s3) {
            Err(e) => return Err(e),
            Ok(x) => x,
        };
        Ok((LbFriendRank { player_id, rank, rank_key, display }, s4))
    }

    proof fn lemma_round_trip(m: LbFriendModel, rest: Seq<u8>) {
        broadcast use {
            lemma_append_associates,
            lemma_parse_rank_key,
            lemma_parse_id,
            lemma_parse_u64,
            lemma_parse_bytes,
        };

    }
}

/// The bytes of an optional rank: a flag, and the rank where there is one.
pub open spec fn optional_rank_field(rank: Option<u64>) -> Seq<u8> {
    match rank {
        None => seq![0u8],
        Some(rank) => seq![1u8] + le64(rank),
    }
}

pub open spec fn parse_optional_rank(s: Seq<u8>) -> Parsed<Option<u64>> {
    match parse_u8(s) {
        Err(_) => Err(WireError::Missing { what: Missing::PlayerRankFlag }),
        Ok((flag, rest)) => if flag == 0 {
            Ok((None, rest))
        } else if flag == 1 {
            match parse_u64(rest) {
                Err(e) => Err(e),
                Ok((rank, rest)) => Ok((Some(rank), rest)),
            }
        } else {
            Err(WireError::UnknownTag { what: Tag::PlayerRank, tag: flag })
        },
    }
}

fn put_optional_rank(out: &mut Vec<u8>, rank: Option<u64>)
    ensures
        final(out)@ == old(out)@ + optional_rank_field(rank),
{
    broadcast use lemma_append_associates;

    match rank {
        None => put_u8(out, 0),
        Some(rank) => {
            put_u8(out, 1);
            put_u64(out, rank);
        },
    }
}

fn take_optional_rank(buf: &[u8]) -> (r: Result<(Option<u64>, &[u8]), WireError>)
    ensures
        at(r) == parse_optional_rank(buf@),
{
    match take_u8(buf) {
        Err(_) => Err(WireError::Missing { what: Missing::PlayerRankFlag }),
        Ok((flag, rest)) => if flag == 0 {
            Ok((None, rest))
        } else if flag == 1 {
            match take_u64(rest) {
                Err(e) => Err(e),
                Ok((rank, rest)) => Ok((Some(rank), rest)),
            }
        } else {
            Err(WireError::UnknownTag { what: Tag::PlayerRank, tag: flag })
        },
    }
}

proof fn lemma_parse_optional_rank(rank: Option<u64>, rest: Seq<u8>)
    ensures
        parse_optional_rank(optional_rank_field(rank) + rest) == Ok::<
            (Option<u64>, Seq<u8>),
            WireError,
        >((rank, rest)),
{
    broadcast use {lemma_append_associates, lemma_parse_u8, lemma_parse_u64};

}

/// The bytes of an answer.
pub open spec fn lb_result_bytes(m: LbResultModel) -> Seq<u8> {
    le64(m.total) + (optional_rank_field(m.player_rank) + (list_field::<LbEntry>(m.top) + (
    list_field::<LbEntry>(m.bottom) + (list_field::<LbEntry>(m.around) + list_field::<
        LbFriendRank,
    >(m.friends)))))
}

pub open spec fn parse_lb_result_fields(s: Seq<u8>) -> Parsed<LbResultModel> {
    match parse_u64(s) {
        Err(e) => Err(e),
        Ok((total, s1)) => match parse_optional_rank(s1) {
            Err(e) => Err(e),
            Ok((player_rank, s2)) => match parse_list::<LbEntry>(s2) {
                Err(e) => Err(e),
                Ok((top, s3)) => match parse_list::<LbEntry>(s3) {
                    Err(e) => Err(e),
                    Ok((bottom, s4)) => match parse_list::<LbEntry>(s4) {
                        Err(e) => Err(e),
                        Ok((around, s5)) => match parse_list::<LbFriendRank>(s5) {
                            Err(e) => Err(e),
                            Ok((friends, s6)) => Ok(
                                (
                                    LbResultModel {
                                        total,
                                        player_rank,
                                        top,
                                        bottom,
                                        around,
                                        friends,
                                    },
                                    s6,
                                ),
                            ),
                        },
                    },
                },
            },
        },
    }
}

/// The answer that bytes spell.
pub open spec fn parse_lb_result(s: Seq<u8>) -> Result<LbResultModel, WireError> {
    placed(whole(parse_lb_result_fields(s), Subject::LbResult), s.len())
}

/// A decoded answer, viewed.
pub open spec fn lb_result_view(r: Result<LbResult, WireError>) -> Result<
    LbResultModel,
    WireError,
> {
    match r {
        Ok(x) => Ok(x@),
        Err(e) => Err(e),
    }
}

pub fn put_lb_result(out: &mut Vec<u8>, result: &LbResult)
    ensures
        final(out)@ == old(out)@ + lb_result_bytes(result@),
{
    broadcast use lemma_append_associates;

    put_u64(out, result.total);
    put_optional_rank(out, result.player_rank);
    put_list(out, result.top.as_slice());
    put_list(out, result.bottom.as_slice());
    put_list(out, result.around.as_slice());
    put_list(out, result.friends.as_slice());
}

pub fn encode_lb_result(result: &LbResult) -> (buf: Vec<u8>)
    ensures
        buf@ == lb_result_bytes(result@),
{
    let mut buf: Vec<u8> = Vec::new();
    put_lb_result(&mut buf, result);
    assert(buf@ =~= lb_result_bytes(result@));
    buf
}

pub fn decode_lb_result(buf: &[u8]) -> (r: Result<LbResult, WireError>)
    ensures
        lb_result_view(r) == parse_lb_result(buf@),
{
    let (total, s1) = match take_u64(buf) {
        Err(e) => return Err(e.locate(buf.len())),
        Ok(x) => x,
    };
    let (player_rank, s2) = match take_optional_rank(s1) {
        Err(e) => return Err(e.locate(buf.len())),
        Ok(x) => x,
    };
    let (top, s3) = match take_list::<LbEntry>(s2) {
        Err(e) => return Err(e.locate(buf.len())),
        Ok(x) => x,
    };
    let (bottom, s4) = match take_list::<LbEntry>(s3) {
        Err(e) => return Err(e.locate(buf.len())),
        Ok(x) => x,
    };
    let (around, s5) = match take_list::<LbEntry>(s4) {
        Err(e) => return Err(e.locate(buf.len())),
        Ok(x) => x,
    };
    let (friends, s6) = match take_list::<LbFriendRank>(s5) {
        Err(e) => return Err(e.locate(buf.len())),
        Ok(x) => x,
    };
    if s6.len() > 0 {
        return Err(WireError::TrailingBytes { what: Subject::LbResult, count: s6.len() as u64 });
    }
    Ok(LbResult { total, player_rank, top, bottom, around, friends })
}

/// Whether the lengths in an answer fit their prefixes of 32 bits, and its
/// rank keys have their eight bytes.
pub open spec fn lb_result_fits(m: LbResultModel) -> bool {
    &&& m.top.len() <= u32::MAX
    &&& m.bottom.len() <= u32::MAX
    &&& m.around.len() <= u32::MAX
    &&& m.friends.len() <= u32::MAX
    &&& all_fit::<LbEntry>(m.top)
    &&& all_fit::<LbEntry>(m.bottom)
    &&& all_fit::<LbEntry>(m.around)
    &&& all_fit::<LbFriendRank>(m.friends)
}

/// Decoding gives back the answer that was encoded.
pub proof fn law_lb_result_round_trip(m: LbResultModel)
    requires
        lb_result_fits(m),
    ensures
        parse_lb_result(lb_result_bytes(m)) == Ok::<LbResultModel, WireError>(m),
{
    let t5 = list_field::<LbFriendRank>(m.friends);
    let t4 = list_field::<LbEntry>(m.around) + t5;
    let t3 = list_field::<LbEntry>(m.bottom) + t4;
    let t2 = list_field::<LbEntry>(m.top) + t3;
    let t1 = optional_rank_field(m.player_rank) + t2;
    lemma_parse_u64(m.total, t1);
    lemma_parse_optional_rank(m.player_rank, t2);
    lemma_list_round_trip::<LbEntry>(m.top, t3);
    lemma_list_round_trip::<LbEntry>(m.bottom, t4);
    lemma_list_round_trip::<LbEntry>(m.around, t5);
    assert(t5 + seq![] =~= t5);
    lemma_list_round_trip::<LbFriendRank>(m.friends, seq![]);
}

} // verus!
