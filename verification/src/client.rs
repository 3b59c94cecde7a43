//! A client that goes where it is sent.

use crate::response::{Response, ResponseModel};
use crate::text::{copy_text, decimal, push_decimal};
use vstd::prelude::*;
use vstd::string::*;

verus! {

/// How often a client lets itself be sent on.
pub const MAX_REDIRECTS: u32 = 8;

/// A request on its way to the node that answers it.
#[derive(Debug)]
pub struct Journey {
    pub address: String,
    /// How often the request was sent.
    pub sent: u32,
}

/// The mathematical content of a [`Journey`].
pub struct JourneyModel {
    pub address: Seq<char>,
    pub sent: int,
}

impl View for Journey {
    type V = JourneyModel;

    open spec fn view(&self) -> JourneyModel {
        JourneyModel { address: self.address@, sent: self.sent as int }
    }
}

/// Why a client gives up.
pub open spec fn gave_up_text(address: Seq<char>) -> Seq<char> {
    "gave up after "@ + decimal(MAX_REDIRECTS as nat) + " redirects, still pointed at "@ + address
}

impl JourneyModel {
    pub open spec fn begun(address: Seq<char>) -> JourneyModel {
        JourneyModel { address, sent: 0 }
    }

    /// Whether the request is still sent: it was sent on no more than it may be.
    pub open spec fn goes_on(self) -> bool {
        self.sent <= MAX_REDIRECTS
    }

    /// The journey after an answer.
    pub open spec fn after(self, response: ResponseModel) -> JourneyModel {
        JourneyModel {
            address: match response {
                ResponseModel::Redirect { address } => address,
                _ => self.address,
            },
            sent: self.sent + 1,
        }
    }

    /// Where the request stands after it was sent on by every one of `answers`.
    pub open spec fn run(self, answers: Seq<ResponseModel>) -> JourneyModel
        decreases answers.len(),
    {
        if answers.len() == 0 {
            self
        } else {
            self.run(answers.drop_last()).after(answers.last())
        }
    }
}

impl Journey {
    pub fn new(initial_address: &str) -> (journey: Self)
        ensures
            journey@ == JourneyModel::begun(initial_address@),
    {
        Journey { address: copy_text(initial_address), sent: 0 }
    }

    /// Where the request is to be sent, or why it is not sent any more.
    pub fn next(&self) -> (r: Result<String, String>)
        ensures
            (match r {
                Ok(address) => self@.goes_on() && address@ == self@.address,
                Err(e) => !self@.goes_on() && e@ == gave_up_text(self@.address),
            }),
    {
        if self.sent <= MAX_REDIRECTS {
            Ok(copy_text(self.address.as_str()))
        } else {
            let mut text = copy_text("gave up after ");
            push_decimal(&mut text, MAX_REDIRECTS as u128);
            text.append(" redirects, still pointed at ");
            text.append(self.address.as_str());
            Err(text)
        }
    }

    /// Takes the answer of the node that the request was sent to. An answer
    /// that sends the client on is kept.
    pub fn answered(&mut self, response: Response) -> (answer: Option<Response>)
        requires
            old(self)@.goes_on(),
        ensures
            (match answer {
                Some(r) => r == response && !(response@ is Redirect),
                None => response@ is Redirect,
            }),
            final(self)@ == old(self)@.after(response@),
    {
        self.sent = self.sent + 1;
        match response {
            Response::Redirect { address } => {
                self.address = address;
                None
            },
            other => Some(other),
        }
    }
}

/// As often as it may be sent on, a client goes where it is sent.
pub proof fn law_follows_redirects(address: Seq<char>, answers: Seq<ResponseModel>)
    requires
        answers.len() <= MAX_REDIRECTS,
        forall|i: int| 0 <= i < answers.len() ==> #[trigger] answers[i] is Redirect,
    ensures
        JourneyModel::begun(address).run(answers).goes_on(),
        JourneyModel::begun(address).run(answers).address == if answers.len() == 0 {
            address
        } else {
            answers.last()->Redirect_address
        },
{
    lemma_run(address, answers);
    if answers.len() > 0 {
        assert(answers[answers.len() - 1] is Redirect);
    }
}

/// A client that is sent on once more gives up, and says where it was sent last.
pub proof fn law_gives_up(address: Seq<char>, answers: Seq<ResponseModel>)
    requires
        answers.len() == MAX_REDIRECTS + 1,
        forall|i: int| 0 <= i < answers.len() ==> #[trigger] answers[i] is Redirect,
    ensures
        !JourneyModel::begun(address).run(answers).goes_on(),
        JourneyModel::begun(address).run(answers).address == answers.last()->Redirect_address,
{
    lemma_run(address, answers);
    assert(answers[answers.len() - 1] is Redirect);
}

proof fn lemma_run(address: Seq<char>, answers: Seq<ResponseModel>)
    ensures
        JourneyModel::begun(address).run(answers).sent == answers.len(),
    decreases answers.len(),
{
    if answers.len() > 0 {
        lemma_run(address, answers.drop_last());
    }
}

/// A client lets itself be sent on eight times, and no ninth time.
pub proof fn law_sent_on_eight_times(address: Seq<char>, answers: Seq<ResponseModel>)
    requires
        forall|i: int| 0 <= i < answers.len() ==> #[trigger] answers[i] is Redirect,
    ensures
        JourneyModel::begun(address).run(answers).goes_on() <==> answers.len() <= 8,
{
    lemma_run(address, answers);
}

} // verus!
