//! The ops that a node can run, by name.

use crate::context::{ContextModel, OpContext};
use crate::datum::DatumId;
use crate::message::result_view;
use crate::store::Store;
use crate::store_wire::optional_bytes;
use crate::text::{copy_text, joined_text};
use vstd::prelude::*;
use vstd::string::*;

verus! {

/// Things by name.
pub struct Named<H> {
    entries: Vec<(String, H)>,
}

/// What entries say, the later over the earlier.
pub open spec fn table<H>(entries: Seq<(String, H)>) -> Map<Seq<char>, H>
    decreases entries.len(),
{
    if entries.len() == 0 {
        Map::empty()
    } else {
        table(entries.drop_last()).insert(entries.last().0@, entries.last().1)
    }
}

impl<H> View for Named<H> {
    type V = Map<Seq<char>, H>;

    closed spec fn view(&self) -> Map<Seq<char>, H> {
        table(self.entries@)
    }
}

impl<H> Named<H> {
    pub fn new() -> (named: Self)
        ensures
            named@ == Map::<Seq<char>, H>::empty(),
    {
        Named { entries: Vec::new() }
    }

    /// Enters a thing under a name, in place of what had the name before.
    pub fn register(&mut self, name: &str, thing: H)
        ensures
            final(self)@ == old(self)@.insert(name@, thing),
    {
        let entry = (copy_text(name), thing);
        self.entries.push(entry);
        assert(self.entries@.drop_last() =~= old(self).entries@);
    }

    /// The thing with a name.
    pub fn find(&self, name: &str) -> (found: Option<&H>)
        ensures
            (match found {
                Some(h) => self@.contains_key(name@) && *h == self@[name@],
                None => !self@.contains_key(name@),
            }),
    {
        let wanted = copy_text(name);
        let mut i: usize = self.entries.len();
        assert(self.entries@.take(i as int) =~= self.entries@);
        while i > 0
            invariant
                i <= self.entries.len(),
                wanted@ == name@,
                table(self.entries@).contains_key(name@) == table(
                    self.entries@.take(i as int),
                ).contains_key(name@),
                table(self.entries@).contains_key(name@) ==> table(self.entries@)[name@] == table(
                    self.entries@.take(i as int),
                )[name@],
            decreases i,
        {
            assert(self.entries@.take(i as int).drop_last() =~= self.entries@.take(i - 1));
            if self.entries[i - 1].0 == wanted {
                return Some(&self.entries[i - 1].1);
            }
            i = i - 1;
        }
        None
    }
}

/// A run of an op: what it was given, what it left, and what it returned.
pub struct OpRun {
    pub before: ContextModel,
    pub datum_ids: Seq<DatumId>,
    pub payload: Seq<u8>,
    pub after: ContextModel,
    pub ran: Option<Seq<u8>>,
}

/// An op. It works on the data that were brought together for it, and gets and
/// gives bytes that only it understands. Nothing is promised of what it does, but
/// that it goes on with the cache that it was given.
pub trait OpHandler<S: Store> {
    /// Whether a run is one that this op can make. Only proofs speak of it: no
    /// code calls this.
    spec fn can_run(&self, run: OpRun) -> bool;

    /// Runs the op: its result, or nothing where it came to grief.
    fn run(
        &self,
        ctx: &mut OpContext<'_, S>,
        datum_ids: &Vec<DatumId>,
        payload: &Vec<u8>,
    ) -> (ran: Option<Vec<u8>>)
        ensures
            self.can_run(
                (OpRun {
                    before: old(ctx)@,
                    datum_ids: datum_ids@,
                    payload: payload@,
                    after: final(ctx)@,
                    ran: optional_bytes(ran),
                }),
            ),
            *final(final(ctx).cache) == *final(old(ctx).cache),
    ;
}

/// The ops that a node can run.
pub struct OpRegistry<H> {
    handlers: Named<H>,
}

impl<H> View for OpRegistry<H> {
    type V = Map<Seq<char>, H>;

    closed spec fn view(&self) -> Map<Seq<char>, H> {
        self.handlers@
    }
}

/// Why an op is not run.
pub open spec fn unknown_op_text(name: Seq<char>) -> Seq<char> {
    "unknown op: "@ + name
}

/// What is said of an op that came to grief.
pub open spec fn panicked_text(name: Seq<char>) -> Seq<char> {
    "op '"@ + name + "' panicked"@
}

/// What an op's run amounts to.
pub open spec fn outcome_of(name: Seq<char>, ran: Option<Seq<u8>>) -> Result<Seq<u8>, Seq<char>> {
    match ran {
        Some(bytes) => Ok(bytes),
        None => Err(panicked_text(name)),
    }
}

/// What an op's run amounts to.
pub fn outcome(name: &str, ran: Option<Vec<u8>>) -> (r: Result<Vec<u8>, String>)
    ensures
        result_view(r) == outcome_of(name@, optional_bytes(ran)),
{
    match ran {
        Some(bytes) => Ok(bytes),
        None => {
            let mut text = joined_text("op '", name);
            text.append("' panicked");
            Err(text)
        },
    }
}

impl<H> OpRegistry<H> {
    pub fn new() -> (registry: Self)
        ensures
            registry@ == Map::<Seq<char>, H>::empty(),
    {
        OpRegistry { handlers: Named::new() }
    }

    pub fn register(&mut self, name: &str, handler: H)
        ensures
            final(self)@ == old(self)@.insert(name@, handler),
    {
        self.handlers.register(name, handler);
    }

    /// Runs the op with a name, once, on what it is given. An op that is not known
    /// touches nothing.
    pub fn invoke<S: Store>(
        &self,
        name: &str,
        ctx: &mut OpContext<'_, S>,
        datum_ids: &Vec<DatumId>,
        payload: &Vec<u8>,
    ) -> (r: Result<Vec<u8>, String>) where H: OpHandler<S>
        ensures
            !self@.contains_key(name@) ==> result_view(r) == Err::<Seq<u8>, Seq<char>>(
                unknown_op_text(name@),
            ) && final(ctx)@ == old(ctx)@,
            self@.contains_key(name@) ==> exists|ran: Option<Seq<u8>>|
                result_view(r) == #[trigger] outcome_of(name@, ran) && self@[name@].can_run(
                    (OpRun {
                        before: old(ctx)@,
                        datum_ids: datum_ids@,
                        payload: payload@,
                        after: final(ctx)@,
                        ran,
                    }),
                ),
            *final(final(ctx).cache) == *final(old(ctx).cache),
    {
        match self.handlers.find(name) {
            Some(handler) => {
                let ran = handler.run(ctx, datum_ids, payload);
                outcome(name, ran)
            },
            None => Err(joined_text("unknown op: ", name)),
        }
    }
}

} // verus!
