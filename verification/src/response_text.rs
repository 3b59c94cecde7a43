//! Responses spelled out for messages.

use crate::datum::DatumId;
use crate::lb::{LbEntry, LbEntryModel, LbFriendModel, LbFriendRank, LbResult, LbResultModel};
use crate::list_wire::{models, Wire};
use crate::response::{Response, ResponseModel};
use crate::text::{decimal, id_text, push_decimal, push_id, quote, quoted};
use vstd::prelude::*;
use vstd::string::*;

verus! {

broadcast proof fn lemma_text_associates(a: Seq<char>, b: Seq<char>, c: Seq<char>)
    ensures
        #[trigger] (a + (b + c)) == (a + b) + c,
{
    assert(a + (b + c) =~= (a + b) + c);
}

/// An id with its type.
pub open spec fn shown_id(id: DatumId) -> Seq<char> {
    "DatumId("@ + id_text(id) + ")"@
}

fn show_id(out: &mut String, id: DatumId)
    ensures
        final(out)@ == old(out)@ + shown_id(id),
{
    out.append("DatumId(");
    push_id(out, id);
    out.append(")");
    assert(out@ =~= old(out)@ + shown_id(id));
}

/// The numbers of a list of bytes, with commas between them.
pub open spec fn shown_numbers(bytes: Seq<u8>) -> Seq<char>
    decreases bytes.len(),
{
    if bytes.len() == 0 {
        seq![]
    } else if bytes.len() == 1 {
        decimal(bytes[0] as nat)
    } else {
        shown_numbers(bytes.drop_last()) + ", "@ + decimal(bytes.last() as nat)
    }
}

/// A list of bytes.
pub open spec fn shown_bytes(bytes: Seq<u8>) -> Seq<char> {
    "["@ + shown_numbers(bytes) + "]"@
}

fn show_bytes(out: &mut String, bytes: &[u8])
    ensures
        final(out)@ == old(out)@ + shown_bytes(bytes@),
{
    out.append("[");
    let ghost before = out@;
    let mut i: usize = 0;
    assert(bytes@.take(0) =~= seq![]);
    assert(out@ =~= before + shown_numbers(bytes@.take(0)));
    while i < bytes.len()
        invariant
            i <= bytes.len(),
            out@ == before + shown_numbers(bytes@.take(i as int)),
        decreases bytes.len() - i,
    {
        assert(bytes@.take(i + 1).drop_last() =~= bytes@.take(i as int));
        if i > 0 {
            out.append(", ");
        }
        push_decimal(out, bytes[i] as u128);
        assert(out@ =~= before + shown_numbers(bytes@.take(i + 1)));
        i = i + 1;
    }
    assert(bytes@.take(i as int) =~= bytes@);
    out.append("]");
    assert(out@ =~= old(out)@ + shown_bytes(bytes@));
}

/// A part of a response that stands in a list.
pub trait Shown: Wire {
    spec fn shown(m: Self::Model) -> Seq<char>;

    fn show(&self, out: &mut String)
        ensures
            final(out)@ == old(out)@ + Self::shown(self.model()),
    ;
}

/// The items of a list, with commas between them.
pub open spec fn shown_items<T: Shown>(items: Seq<T::Model>) -> Seq<char>
    decreases items.len(),
{
    if items.len() == 0 {
        seq![]
    } else if items.len() == 1 {
        T::shown(items[0])
    } else {
        shown_items::<T>(items.drop_last()) + ", "@ + T::shown(items.last())
    }
}

/// A list.
pub open spec fn shown_list<T: Shown>(items: Seq<T::Model>) -> Seq<char> {
    "["@ + shown_items::<T>(items) + "]"@
}

fn show_list<T: Shown>(out: &mut String, items: &[T])
    ensures
        final(out)@ == old(out)@ + shown_list::<T>(models(items@)),
{
    let ghost all = models(items@);
    out.append("[");
    let ghost before = out@;
    let mut i: usize = 0;
    assert(out@ =~= before + shown_items::<T>(all.take(0)));
    while i < items.len()
        invariant
            i <= items.len(),
            all == models(items@),
            out@ == before + shown_items::<T>(all.take(i as int)),
        decreases items.len() - i,
    {
        assert(all.take(i + 1).drop_last() =~= all.take(i as int));
        if i > 0 {
            out.append(", ");
        }
        items[i].show(out);
        assert(all[i as int] == items@[i as int].model());
        assert(out@ =~= before + shown_items::<T>(all.take(i + 1)));
        i = i + 1;
    }
    assert(all.take(i as int) =~= all);
    out.append("]");
    assert(out@ =~= old(out)@ + shown_list::<T>(all));
}

impl Shown for (Vec<u8>, DatumId) {
    open spec fn shown(m: (Seq<u8>, DatumId)) -> Seq<char> {
        "("@ + shown_bytes(m.0) + ", "@ + shown_id(m.1) + ")"@
    }

    fn show(&self, out: &mut String) {
        out.append("(");
        show_bytes(out, self.0.as_slice());
        out.append(", ");
        show_id(out, self.1);
        out.append(")");
        assert(out@ =~= old(out)@ + Self::shown(self.model()));
    }
}

impl Shown for LbEntry {
    open spec fn shown(m: LbEntryModel) -> Seq<char> {
        "LbEntry { rank_key: "@ + shown_bytes(m.rank_key) + ", player_id: "@ + shown_id(m.player_id)
            + ", display: "@ + shown_bytes(m.display) + " }"@
    }

    fn show(&self, out: &mut String) {
        out.append("LbEntry { rank_key: ");
        show_bytes(out, vstd::array::array_as_slice(&self.rank_key));
        out.append(", player_id: ");
        show_id(out, self.player_id);
        out.append(", display: ");
        show_bytes(out, self.display.as_slice());
        out.append(" }");
        assert(out@ =~= old(out)@ + Self::shown(self.model()));
    }
}

impl Shown for LbFriendRank {
    open spec fn shown(m: LbFriendModel) -> Seq<char> {
        "LbFriendRank { player_id: "@ + shown_id(m.player_id) + ", rank: "@ + decimal(m.rank as nat)
            + ", rank_key: "@ + shown_bytes(m.rank_key) + ", display: "@ + shown_bytes(m.display)
            + " }"@
    }

    fn show(&self, out: &mut String) {
        out.append("LbFriendRank { player_id: ");
        show_id(out, self.player_id);
        out.append(", rank: ");
        push_decimal(out, self.rank as u128);
        out.append(", rank_key: ");
        show_bytes(out, vstd::array::array_as_slice(&self.rank_key));
        out.append(", display: ");
        show_bytes(out, self.display.as_slice());
        out.append(" }");
        assert(out@ =~= old(out)@ + Self::shown(self.model()));
    }
}

/// A rank, where there is one.
pub open spec fn shown_rank(rank: Option<u64>) -> Seq<char> {
    match rank {
        None => "None"@,
        Some(rank) => "Some("@ + decimal(rank as nat) + ")"@,
    }
}

/// A leaderboard's answer.
#[verifier::opaque]
pub open spec fn shown_result(m: LbResultModel) -> Seq<char> {
    "LbResult { total: "@ + decimal(m.total as nat) + ", player_rank: "@ + shown_rank(m.player_rank)
        + ", top: "@ + shown_list::<LbEntry>(m.top) + ", bottom: "@ + shown_list::<LbEntry>(
        m.bottom,
    ) + ", around: "@ + shown_list::<LbEntry>(m.around) + ", friends: "@ + shown_list::<
        LbFriendRank,
    >(m.friends) + " }"@
}

fn show_result(out: &mut String, result: &LbResult)
    ensures
        final(out)@ == old(out)@ + shown_result(result@),
{
    broadcast use lemma_text_associates;

    reveal(shown_result);
    out.append("LbResult { total: ");
    push_decimal(out, result.total as u128);
    out.append(", player_rank: ");
    let ghost before = out@;
    match result.player_rank {
        None => {
            out.append("None");
        },
        Some(rank) => {
            out.append("Some(");
            push_decimal(out, rank as u128);
            out.append(")");
        },
    }
    assert(out@ == before + shown_rank(result.player_rank));
    out.append(", top: ");
    show_list(out, result.top.as_slice());
    out.append(", bottom: ");
    show_list(out, result.bottom.as_slice());
    out.append(", around: ");
    show_list(out, result.around.as_slice());
    out.append(", friends: ");
    show_list(out, result.friends.as_slice());
    out.append(" }");
}

/// A text that says what a response is.
pub open spec fn shown_response(m: ResponseModel) -> Seq<char> {
    match m {
        ResponseModel::Redirect { address } => "Redirect { address: "@ + quoted(address) + " }"@,
        ResponseModel::OpResult { payload } => "OpResult { payload: "@ + shown_bytes(payload)
            + " }"@,
        ResponseModel::OpError { message } => "OpError { message: "@ + quoted(message) + " }"@,
        ResponseModel::Granted => "Granted"@,
        ResponseModel::Released => "Released"@,
        ResponseModel::IndexUpdateResult { violation: None } => {
            "IndexUpdateResult { violation: None }"@
        },
        ResponseModel::IndexUpdateResult { violation: Some(message) } => {
            "IndexUpdateResult { violation: Some("@ + quoted(message) + ") }"@
        },
        ResponseModel::RkQueryResult { entries } => "RkQueryResult { entries: "@ + shown_list::<
            (Vec<u8>, DatumId),
        >(entries) + " }"@,
        ResponseModel::LbResult(result) => "LbResult("@ + shown_result(result) + ")"@,
    }
}

/// Appends a text that says what a response is.
pub fn show_response(out: &mut String, response: &Response)
    ensures
        final(out)@ == old(out)@ + shown_response(response@),
{
    broadcast use lemma_text_associates;

    match response {
        Response::Redirect { address } => {
            out.append("Redirect { address: ");
            out.append(quote(address.as_str()).as_str());
            out.append(" }");
        },
        Response::OpResult { payload } => {
            out.append("OpResult { payload: ");
            show_bytes(out, payload.as_slice());
            out.append(" }");
        },
        Response::OpError { message } => {
            out.append("OpError { message: ");
            out.append(quote(message.as_str()).as_str());
            out.append(" }");
        },
        Response::Granted => {
            out.append("Granted");
        },
        Response::Released => {
            out.append("Released");
        },
        Response::IndexUpdateResult { violation } => match violation {
            None => {
                out.append("IndexUpdateResult { violation: None }");
            },
            Some(message) => {
                out.append("IndexUpdateResult { violation: Some(");
                out.append(quote(message.as_str()).as_str());
                out.append(") }");
            },
        },
        Response::RkQueryResult { entries } => {
            out.append("RkQueryResult { entries: ");
            show_list(out, entries.as_slice());
            out.append(" }");
        },
        Response::LbResult(result) => {
            out.append("LbResult(");
            show_result(out, result);
            out.append(")");
        },
    }
}

} // verus!
