//! Whether the cluster serves.
//!
//! It stops in two ways. A halt is for good, set when data is lost and lifted
//! only by an operator. A pause is for the time of a migration. Clients are told
//! which it is, by how the message begins, and a halt goes before a pause.

use crate::response::optional_text;
use crate::text::{begins_with, copy_text, joined_text};
use vstd::prelude::*;

verus! {

/// The mathematical content of a [`HaltState`].
pub struct HaltModel {
    pub halted: bool,
    pub reason: Option<Seq<char>>,
    pub paused: bool,
    pub pause_reason: Option<Seq<char>>,
}

/// What a client is told of a halt: the reason, which is made to say that the
/// cluster is halted where it does not begin so.
pub open spec fn halted_text(reason: Seq<char>) -> Seq<char> {
    if "cluster halted"@.is_prefix_of(reason) {
        reason
    } else {
        "cluster halted: "@ + reason
    }
}

impl HaltModel {
    pub open spec fn serving() -> HaltModel {
        HaltModel { halted: false, reason: None, paused: false, pause_reason: None }
    }

    /// The state after a halt: the first reason stays.
    pub open spec fn after_halt(self, reason: Seq<char>) -> HaltModel {
        HaltModel {
            halted: true,
            reason: if self.reason is None {
                Some(reason)
            } else {
                self.reason
            },
            ..self
        }
    }

    pub open spec fn after_clear(self) -> HaltModel {
        HaltModel { halted: false, reason: None, ..self }
    }

    /// The state after a pause: the last reason stays.
    pub open spec fn after_pause(self, reason: Seq<char>) -> HaltModel {
        HaltModel { paused: true, pause_reason: Some(reason), ..self }
    }

    /// The state after the end of a pause.
    pub open spec fn after_resume(self) -> HaltModel {
        HaltModel { paused: false, pause_reason: None, ..self }
    }

    /// What a client is told instead of being served.
    pub open spec fn refusal(self) -> Option<Seq<char>> {
        if self.halted {
            Some(
                match self.reason {
                    Some(reason) => halted_text(reason),
                    None => "cluster halted"@,
                },
            )
        } else if self.paused {
            Some(
                "cluster paused: "@ + match self.pause_reason {
                    Some(reason) => reason,
                    None => seq![],
                },
            )
        } else {
            None
        }
    }
}

/// What every request passes that is not an operator's.
pub struct HaltState {
    halted: bool,
    reason: Option<String>,
    paused: bool,
    pause_reason: Option<String>,
}

impl View for HaltState {
    type V = HaltModel;

    closed spec fn view(&self) -> HaltModel {
        HaltModel {
            halted: self.halted,
            reason: optional_text(self.reason),
            paused: self.paused,
            pause_reason: optional_text(self.pause_reason),
        }
    }
}

fn copy_reason(reason: &Option<String>) -> (copy: Option<String>)
    ensures
        optional_text(copy) == optional_text(*reason),
{
    match reason {
        None => None,
        Some(text) => Some(copy_text(text.as_str())),
    }
}

impl HaltState {
    pub fn new() -> (halt: Self)
        ensures
            halt@ == HaltModel::serving(),
    {
        Self { halted: false, reason: None, paused: false, pause_reason: None }
    }

    /// Halts the cluster. Of several reasons the first is kept.
    pub fn halt(&mut self, reason: String)
        ensures
            final(self)@ == old(self)@.after_halt(reason@),
    {
        if self.reason.is_none() {
            self.reason = Some(reason);
        }
        self.halted = true;
    }

    pub fn is_halted(&self) -> (b: bool)
        ensures
            b == self@.halted,
    {
        self.halted
    }

    pub fn reason(&self) -> (reason: Option<String>)
        ensures
            optional_text(reason) == self@.reason,
    {
        copy_reason(&self.reason)
    }

    /// Lifts the halt and forgets its reason.
    pub fn clear_halt(&mut self)
        ensures
            final(self)@ == old(self)@.after_clear(),
    {
        self.halted = false;
        self.reason = None;
    }

    /// Pauses the cluster. Of several reasons the last is kept.
    pub fn pause(&mut self, reason: String)
        ensures
            final(self)@ == old(self)@.after_pause(reason@),
    {
        self.pause_reason = Some(reason);
        self.paused = true;
    }

    /// Ends the pause. A halt stays.
    pub fn resume(&mut self)
        ensures
            final(self)@ == old(self)@.after_resume(),
    {
        self.paused = false;
        self.pause_reason = None;
    }

    pub fn is_paused(&self) -> (b: bool)
        ensures
            b == self@.paused,
    {
        self.paused
    }

    pub fn pause_reason(&self) -> (reason: Option<String>)
        ensures
            optional_text(reason) == self@.pause_reason,
    {
        copy_reason(&self.pause_reason)
    }

    /// What a client is told instead of being served, if anything.
    pub fn gate(&self) -> (message: Option<String>)
        ensures
            optional_text(message) == self@.refusal(),
    {
        if self.halted {
            return match &self.reason {
                Some(reason) => {
                    if begins_with(reason.as_str(), "cluster halted") {
                        Some(copy_text(reason.as_str()))
                    } else {
                        Some(joined_text("cluster halted: ", reason.as_str()))
                    }
                },
                None => Some(copy_text("cluster halted")),
            };
        }
        if self.paused {
            return match &self.pause_reason {
                Some(reason) => Some(joined_text("cluster paused: ", reason.as_str())),
                None => {
                    assert("cluster paused: "@ + Seq::<char>::empty() =~= "cluster paused: "@);
                    Some(copy_text("cluster paused: "))
                },
            };
        }
        None
    }
}

impl Default for HaltState {
    fn default() -> (halt: Self)
        ensures
            halt@ == HaltModel::serving(),
    {
        Self::new()
    }
}

// ---- laws ----

/// A second halt changes nothing: the first loss is the one that is reported.
pub proof fn law_first_halt_wins(h: HaltModel, first: Seq<char>, second: Seq<char>)
    ensures
        h.after_halt(first).after_halt(second) == h.after_halt(first),
{
}

/// A halt goes before a pause, and the end of a pause leaves it standing.
pub proof fn law_halt_beats_pause(h: HaltModel, loss: Seq<char>, reason: Seq<char>)
    requires
        h == HaltModel::serving(),
    ensures
        h.after_pause(reason).after_halt(loss).refusal() == Some(halted_text(loss)),
        h.after_halt(loss).after_pause(reason).refusal() == Some(halted_text(loss)),
        h.after_pause(reason).after_halt(loss).after_resume().refusal() == Some(halted_text(loss)),
{
}

/// Whatever the reason, a client can tell from the beginning of the message
/// whether the cluster is halted or paused.
pub proof fn law_message_tells_which(h: HaltModel, m: Seq<char>)
    requires
        h.refusal() == Some(m),
    ensures
        h.halted <==> "cluster halted"@.is_prefix_of(m),
        !h.halted <==> "cluster paused"@.is_prefix_of(m),
{
    let down = "cluster halted"@;
    let shortly = "cluster paused"@;
    reveal_strlit("cluster halted");
    reveal_strlit("cluster halted: ");
    reveal_strlit("cluster paused");
    reveal_strlit("cluster paused: ");
    assert(down[8] != shortly[8]);
    if h.halted {
        if let Some(reason) = h.reason {
            if !down.is_prefix_of(reason) {
                assert(m.subrange(0, down.len() as int) =~= down);
            }
        } else {
            assert(m.subrange(0, down.len() as int) =~= down);
        }
        assert(m.subrange(0, down.len() as int)[8] == m[8]);
        if shortly.is_prefix_of(m) {
            assert(m.subrange(0, shortly.len() as int)[8] == m[8]);
        }
    } else {
        assert(m.subrange(0, shortly.len() as int) =~= shortly);
        assert(m.subrange(0, shortly.len() as int)[8] == m[8]);
        if down.is_prefix_of(m) {
            assert(m.subrange(0, down.len() as int)[8] == m[8]);
        }
    }
}

/// A pause that has ended leaves no trace, and neither does a halt that was
/// lifted.
pub proof fn law_stops_can_be_undone(h: HaltModel, reason: Seq<char>)
    ensures
        h.pause_reason is None && !h.paused ==> h.after_pause(reason).after_resume() == h,
        h.reason is None && !h.halted ==> h.after_halt(reason).after_clear() == h,
{
}

} // verus!
