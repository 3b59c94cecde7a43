//! Why bytes are not a message, and how that is told.

use crate::text::{copy_text, decimal, push_decimal};
use vstd::prelude::*;
use vstd::string::*;

verus! {

/// What bytes were to be.
#[derive(Debug, Clone, Copy, PartialEq, Eq, Structural)]
pub enum Subject {
    Request,
    Response,
    StoreRequest,
    StoreResponse,
    Acquire,
    Recall,
    Release,
    RkQuery,
    RkQueryKind,
    LbExecute,
    LbQuery,
    LbResult,
    Redirect,
    StoreGet,
    StoreDelete,
    StoreListIds,
    StoreTransferStatus,
    StoreFinishTransfer,
    StoreRetire,
    StoreIdentify,
    Join,
    Leave,
    Gossip,
    AdminRequest,
    AdminReply,
}

impl Subject {
    /// Its name.
    pub open spec fn spelled(self) -> Seq<char> {
        match self {
            Subject::Request => "request"@,
            Subject::Response => "response"@,
            Subject::StoreRequest => "store request"@,
            Subject::StoreResponse => "store response"@,
            Subject::Acquire => "acquire request"@,
            Subject::Recall => "recall request"@,
            Subject::Release => "release request"@,
            Subject::RkQuery => "rk query request"@,
            Subject::RkQueryKind => "rk query kind"@,
            Subject::LbExecute => "lb execute op"@,
            Subject::LbQuery => "lb query"@,
            Subject::LbResult => "lb result"@,
            Subject::Redirect => "redirect response"@,
            Subject::StoreGet => "store get"@,
            Subject::StoreDelete => "store delete"@,
            Subject::StoreListIds => "store list ids"@,
            Subject::StoreTransferStatus => "store transfer status"@,
            Subject::StoreFinishTransfer => "store finish transfer"@,
            Subject::StoreRetire => "store retire"@,
            Subject::StoreIdentify => "store identify"@,
            Subject::Join => "join mutation record"@,
            Subject::Leave => "leave mutation record"@,
            Subject::Gossip => "gossip message"@,
            Subject::AdminRequest => "admin request"@,
            Subject::AdminReply => "admin reply"@,
        }
    }

    pub fn name(self) -> (text: &'static str)
        ensures
            text@ == self.spelled(),
    {
        match self {
            Subject::Request => "request",
            Subject::Response => "response",
            Subject::StoreRequest => "store request",
            Subject::StoreResponse => "store response",
            Subject::Acquire => "acquire request",
            Subject::Recall => "recall request",
            Subject::Release => "release request",
            Subject::RkQuery => "rk query request",
            Subject::RkQueryKind => "rk query kind",
            Subject::LbExecute => "lb execute op",
            Subject::LbQuery => "lb query",
            Subject::LbResult => "lb result",
            Subject::Redirect => "redirect response",
            Subject::StoreGet => "store get",
            Subject::StoreDelete => "store delete",
            Subject::StoreListIds => "store list ids",
            Subject::StoreTransferStatus => "store transfer status",
            Subject::StoreFinishTransfer => "store finish transfer",
            Subject::StoreRetire => "store retire",
            Subject::StoreIdentify => "store identify",
            Subject::Join => "join mutation record",
            Subject::Leave => "leave mutation record",
            Subject::Gossip => "gossip message",
            Subject::AdminRequest => "admin request",
            Subject::AdminReply => "admin reply",
        }
    }
}

/// What a byte that selects among alternatives selects.
#[derive(Debug, Clone, Copy, PartialEq, Eq, Structural)]
pub enum Tag {
    Flag,
    Request,
    Response,
    RkQueryKind,
    LbExecute,
    AroundPlayer,
    PlayerRank,
    IndexUpdateResult,
    Envelope,
    StoreRequest,
    StoreResponse,
    ListIdsAfter,
    StoreValue,
    Authority,
    MemberStatus,
    RingMutation,
    Gossip,
    MemberRole,
    AdminRequest,
    AdminReply,
}

impl Tag {
    /// What is said of a value that is none of them.
    pub open spec fn spelled(self) -> Seq<char> {
        match self {
            Tag::Flag => "unknown flag"@,
            Tag::Request => "unknown request opcode"@,
            Tag::Response => "unknown response opcode"@,
            Tag::RkQueryKind => "unknown rk query kind tag"@,
            Tag::LbExecute => "unknown lb execute op tag"@,
            Tag::AroundPlayer => "unknown around_player flag"@,
            Tag::PlayerRank => "unknown player_rank flag"@,
            Tag::IndexUpdateResult => "unknown index update result flag"@,
            Tag::Envelope => "invalid envelope kind tag"@,
            Tag::StoreRequest => "unknown store request tag"@,
            Tag::StoreResponse => "unknown store response tag"@,
            Tag::ListIdsAfter => "unknown list ids after flag"@,
            Tag::StoreValue => "unknown store value flag"@,
            Tag::Authority => "invalid authority_idx tag byte"@,
            Tag::MemberStatus => "invalid member status tag byte"@,
            Tag::RingMutation => "invalid ring mutation tag byte"@,
            Tag::Gossip => "unknown gossip message tag"@,
            Tag::MemberRole => "invalid member role tag byte"@,
            Tag::AdminRequest => "unknown admin request tag"@,
            Tag::AdminReply => "unknown admin reply tag"@,
        }
    }

    pub fn complaint(self) -> (text: &'static str)
        ensures
            text@ == self.spelled(),
    {
        match self {
            Tag::Flag => "unknown flag",
            Tag::Request => "unknown request opcode",
            Tag::Response => "unknown response opcode",
            Tag::RkQueryKind => "unknown rk query kind tag",
            Tag::LbExecute => "unknown lb execute op tag",
            Tag::AroundPlayer => "unknown around_player flag",
            Tag::PlayerRank => "unknown player_rank flag",
            Tag::IndexUpdateResult => "unknown index update result flag",
            Tag::Envelope => "invalid envelope kind tag",
            Tag::StoreRequest => "unknown store request tag",
            Tag::StoreResponse => "unknown store response tag",
            Tag::ListIdsAfter => "unknown list ids after flag",
            Tag::StoreValue => "unknown store value flag",
            Tag::Authority => "invalid authority_idx tag byte",
            Tag::MemberStatus => "invalid member status tag byte",
            Tag::RingMutation => "invalid ring mutation tag byte",
            Tag::Gossip => "unknown gossip message tag",
            Tag::MemberRole => "invalid member role tag byte",
            Tag::AdminRequest => "unknown admin request tag",
            Tag::AdminReply => "unknown admin reply tag",
        }
    }
}

/// What is missing from a message that is too short.
#[derive(Debug, Clone, Copy, PartialEq, Eq, Structural)]
pub enum Missing {
    OpNameLength,
    OpIdsCount,
    OpIds,
    IndexUpdateFields,
    IndexUpdateKind,
    RkEntriesCount,
    AroundPlayerFlag,
    PlayerRankFlag,
    IndexUpdateResultFlag,
    ListIdsAfterFlag,
    StoreValueFlag,
    IdListDoneFlag,
    TransferDoneFlag,
    SkEntriesCount,
    ClientAddress,
    GossipAddress,
}

impl Missing {
    /// What is said of it.
    pub open spec fn spelled(self) -> Seq<char> {
        match self {
            Missing::OpNameLength => "op request too short for a name length"@,
            Missing::OpIdsCount => "op request too short for a datum_ids count"@,
            Missing::OpIds => "op request truncated in datum_ids list"@,
            Missing::IndexUpdateFields => "index update request too short for its fixed fields"@,
            Missing::IndexUpdateKind => "index update request too short for its index_kind"@,
            Missing::RkEntriesCount => "rk entries buffer too short for a count"@,
            Missing::AroundPlayerFlag => "lb query truncated at around_player flag"@,
            Missing::PlayerRankFlag => "lb result truncated at player_rank flag"@,
            Missing::IndexUpdateResultFlag => "index update result too short for its flag byte"@,
            Missing::ListIdsAfterFlag => "list ids request truncated at the after flag"@,
            Missing::StoreValueFlag => "store value response missing its presence flag"@,
            Missing::IdListDoneFlag => "id list response truncated at the done flag"@,
            Missing::TransferDoneFlag => "transfer progress truncated at the done flag"@,
            Missing::SkEntriesCount => "sk entry list truncated: missing count prefix"@,
            Missing::ClientAddress => "decoding client_address"@,
            Missing::GossipAddress => "decoding gossip_address"@,
        }
    }

    pub fn complaint(self) -> (text: &'static str)
        ensures
            text@ == self.spelled(),
    {
        match self {
            Missing::OpNameLength => "op request too short for a name length",
            Missing::OpIdsCount => "op request too short for a datum_ids count",
            Missing::OpIds => "op request truncated in datum_ids list",
            Missing::IndexUpdateFields => "index update request too short for its fixed fields",
            Missing::IndexUpdateKind => "index update request too short for its index_kind",
            Missing::RkEntriesCount => "rk entries buffer too short for a count",
            Missing::AroundPlayerFlag => "lb query truncated at around_player flag",
            Missing::PlayerRankFlag => "lb result truncated at player_rank flag",
            Missing::IndexUpdateResultFlag => "index update result too short for its flag byte",
            Missing::ListIdsAfterFlag => "list ids request truncated at the after flag",
            Missing::StoreValueFlag => "store value response missing its presence flag",
            Missing::IdListDoneFlag => "id list response truncated at the done flag",
            Missing::TransferDoneFlag => "transfer progress truncated at the done flag",
            Missing::SkEntriesCount => "sk entry list truncated: missing count prefix",
            Missing::ClientAddress => "decoding client_address",
            Missing::GossipAddress => "decoding gossip_address",
        }
    }
}

/// The first fields of a message, which it is too short for.
#[derive(Debug, Clone, Copy, PartialEq, Eq, Structural)]
pub enum Header {
    OpId,
    RedirectLength,
    Envelope,
    MemberUpdate,
    RingMutation,
}

impl Header {
    /// What is said of it, before the length.
    pub open spec fn spelled(self) -> Seq<char> {
        match self {
            Header::OpId => "op request too short for an op_id: "@,
            Header::RedirectLength => "redirect response too short for an address length: "@,
            Header::Envelope => "envelope too short for its header: "@,
            Header::MemberUpdate => "member update payload too short: "@,
            Header::RingMutation => "ring mutation record too short: "@,
        }
    }

    pub fn complaint(self) -> (text: &'static str)
        ensures
            text@ == self.spelled(),
    {
        match self {
            Header::OpId => "op request too short for an op_id: ",
            Header::RedirectLength => "redirect response too short for an address length: ",
            Header::Envelope => "envelope too short for its header: ",
            Header::MemberUpdate => "member update payload too short: ",
            Header::RingMutation => "ring mutation record too short: ",
        }
    }
}

/// A text in a message.
#[derive(Debug, Clone, Copy, PartialEq, Eq, Structural)]
pub enum TextField {
    Plain,
    OpName,
    IndexKind,
    LbClass,
    RedirectAddress,
    OpError,
    Violation,
    DestAddress,
    StoreError,
}

impl TextField {
    /// What is said of one that is not UTF-8.
    pub open spec fn spelled(self) -> Seq<char> {
        match self {
            TextField::Plain => "text was not valid utf8"@,
            TextField::OpName => "op name was not valid utf8"@,
            TextField::IndexKind => "index_kind was not valid utf8"@,
            TextField::LbClass => "lb class was not valid utf8"@,
            TextField::RedirectAddress => "redirect address was not valid utf8"@,
            TextField::OpError => "op error message was not valid utf8"@,
            TextField::Violation => "index update violation message was not valid utf8"@,
            TextField::DestAddress => "transfer dest_address was not valid utf8"@,
            TextField::StoreError => "store error message not utf8"@,
        }
    }

    pub fn complaint(self) -> (text: &'static str)
        ensures
            text@ == self.spelled(),
    {
        match self {
            TextField::Plain => "text was not valid utf8",
            TextField::OpName => "op name was not valid utf8",
            TextField::IndexKind => "index_kind was not valid utf8",
            TextField::LbClass => "lb class was not valid utf8",
            TextField::RedirectAddress => "redirect address was not valid utf8",
            TextField::OpError => "op error message was not valid utf8",
            TextField::Violation => "index update violation message was not valid utf8",
            TextField::DestAddress => "transfer dest_address was not valid utf8",
            TextField::StoreError => "store error message not utf8",
        }
    }
}

/// A field within which bytes end.
#[derive(Debug, Clone, Copy, PartialEq, Eq, Structural)]
pub enum Part {
    U8,
    U16,
    U32,
    U64,
    /// The length of a byte string.
    Prefix,
    /// A byte string of a given length.
    Bytes { expected: u32 },
    Id,
    RankKey,
}

impl Part {
    /// What it is called.
    pub open spec fn spelled(self) -> Seq<char> {
        match self {
            Part::U8 => "u8"@,
            Part::U16 => "u16"@,
            Part::U32 => "u32"@,
            Part::U64 => "u64"@,
            Part::Prefix => "length prefix"@,
            Part::Bytes { .. } => "byte field"@,
            Part::Id => "datum id"@,
            Part::RankKey => "rank key"@,
        }
    }

    pub fn name(self) -> (text: &'static str)
        ensures
            text@ == self.spelled(),
    {
        match self {
            Part::U8 => "u8",
            Part::U16 => "u16",
            Part::U32 => "u32",
            Part::U64 => "u64",
            Part::Prefix => "length prefix",
            Part::Bytes { .. } => "byte field",
            Part::Id => "datum id",
            Part::RankKey => "rank key",
        }
    }
}

/// A list whose number of entries fixes its length.
#[derive(Debug, Clone, Copy, PartialEq, Eq, Structural)]
pub enum Entries {
    Rk,
    Sk,
}

/// Why bytes are not a message.
#[derive(Debug, Clone, Copy, PartialEq, Eq, Structural)]
pub enum WireError {
    /// There is no version byte, or no byte that says what the message is.
    Empty { what: Subject },
    /// The message is of a protocol version this node does not speak.
    UnsupportedVersion { what: Subject, version: u8, supported: u8 },
    /// A byte that selects among alternatives has none of their values.
    UnknownTag { what: Tag, tag: u8 },
    /// The bytes end within a field, of which `left` are there.
    Truncated { part: Part, left: u64 },
    /// The bytes end within a field that begins at an offset.
    TruncatedAt { part: Part, offset: u64 },
    /// The message is too short for something.
    Missing { what: Missing },
    /// The message is too short for its first fields.
    TooShort { what: Header, found: u64 },
    /// The message is too short for the name of an op.
    NameTooShort { expected: u32 },
    /// A message whose fields fix its length has another one.
    WrongLength { what: Subject, expected: u64, found: u64 },
    /// A list is not as long as the number of its entries says.
    WrongCount { what: Entries, count: u32, expected: u64, found: u64 },
    /// Bytes are left over behind the last field.
    TrailingBytes { what: Subject, count: u64 },
    /// A text field is not UTF-8.
    InvalidUtf8 { what: TextField },
    /// The delta of a patch is none.
    MalformedDelta,
}

impl WireError {
    /// What went wrong, for a person.
    pub open spec fn text(self) -> Seq<char> {
        match self {
            WireError::Empty { what } => if what == Subject::LbExecute {
                "empty lb execute op"@
            } else {
                "empty "@ + what.spelled() + " payload"@
            },
            WireError::UnsupportedVersion { what, version, supported } => {
                "unsupported "@ + what.spelled() + " protocol version "@ + decimal(version as nat)
                    + (if what == Subject::StoreRequest || what == Subject::StoreResponse {
                    "; this node speaks "@
                } else {
                    "; this node speaks version "@
                }) + decimal(supported as nat)
            },
            WireError::UnknownTag { what, tag } => what.spelled() + ": "@ + decimal(tag as nat),
            WireError::Truncated { part, left } => "truncated "@ + part.spelled() + ": "@ + decimal(
                left as nat,
            ) + " bytes left"@,
            WireError::TruncatedAt { part, offset } => {
                let at = "truncated "@ + part.spelled() + " at offset "@ + decimal(offset as nat);
                match part {
                    Part::Bytes { expected } => at + ": expected "@ + decimal(expected as nat)
                        + " bytes"@,
                    _ => at,
                }
            },
            WireError::Missing { what } => what.spelled(),
            WireError::TooShort { what, found } => what.spelled() + decimal(found as nat)
                + " bytes"@,
            WireError::NameTooShort { expected } => {
                "op request too short for its name: expected "@ + decimal(expected as nat)
                    + " bytes"@
            },
            WireError::WrongLength { what, expected, found } => match what {
                Subject::RkQueryKind => "rk query kind must be exactly "@ + decimal(expected as nat)
                    + " bytes, got "@ + decimal(found as nat),
                Subject::Redirect | Subject::Join | Subject::Leave => what.spelled()
                    + " length mismatch: expected "@ + decimal(expected as nat) + " bytes, got "@
                    + decimal(found as nat),
                _ => what.spelled() + " has the wrong length: expected "@ + decimal(expected as nat)
                    + " bytes, got "@ + decimal(found as nat),
            },
            WireError::WrongCount { what, count, expected, found } => match what {
                Entries::Rk => "rk entries length mismatch: "@ + decimal(count as nat)
                    + " entries need "@ + decimal(expected as nat) + " bytes, got "@ + decimal(
                    found as nat,
                ),
                Entries::Sk => "sk entry list length mismatch: expected "@ + decimal(
                    expected as nat,
                ) + " bytes for "@ + decimal(count as nat) + " entries, got "@ + decimal(
                    found as nat,
                ),
            },
            WireError::TrailingBytes { what, count } => what.spelled() + " has "@ + decimal(
                count as nat,
            ) + " trailing bytes"@,
            WireError::InvalidUtf8 { what } => what.spelled(),
            WireError::MalformedDelta => "store patch carried a malformed delta"@,
        }
    }

    /// What went wrong, for a person.
    pub fn message(&self) -> (text: String)
        ensures
            text@ == self.text(),
    {
        match *self {
            WireError::Empty { what } => {
                if what == Subject::LbExecute {
                    return copy_text("empty lb execute op");
                }
                let mut text = copy_text("empty ");
                text.append(what.name());
                text.append(" payload");
                text
            },
            WireError::UnsupportedVersion { what, version, supported } => {
                let mut text = copy_text("unsupported ");
                text.append(what.name());
                text.append(" protocol version ");
                push_decimal(&mut text, version as u128);
                if what == Subject::StoreRequest || what == Subject::StoreResponse {
                    text.append("; this node speaks ");
                } else {
                    text.append("; this node speaks version ");
                }
                push_decimal(&mut text, supported as u128);
                text
            },
            WireError::UnknownTag { what, tag } => {
                let mut text = copy_text(what.complaint());
                text.append(": ");
                push_decimal(&mut text, tag as u128);
                text
            },
            WireError::Truncated { part, left } => {
                let mut text = copy_text("truncated ");
                text.append(part.name());
                text.append(": ");
                push_decimal(&mut text, left as u128);
                text.append(" bytes left");
                text
            },
            WireError::TruncatedAt { part, offset } => {
                let mut text = copy_text("truncated ");
                text.append(part.name());
                text.append(" at offset ");
                push_decimal(&mut text, offset as u128);
                if let Part::Bytes { expected } = part {
                    text.append(": expected ");
                    push_decimal(&mut text, expected as u128);
                    text.append(" bytes");
                }
                text
            },
            WireError::Missing { what } => copy_text(what.complaint()),
            WireError::TooShort { what, found } => {
                let mut text = copy_text(what.complaint());
                push_decimal(&mut text, found as u128);
                text.append(" bytes");
                text
            },
            WireError::NameTooShort { expected } => {
                let mut text = copy_text("op request too short for its name: expected ");
                push_decimal(&mut text, expected as u128);
                text.append(" bytes");
                text
            },
            WireError::WrongLength { what, expected, found } => {
                let mut text = match what {
                    Subject::RkQueryKind => copy_text("rk query kind must be exactly "),
                    Subject::Redirect | Subject::Join | Subject::Leave => {
                        let mut text = copy_text(what.name());
                        text.append(" length mismatch: expected ");
                        text
                    },
                    _ => {
                        let mut text = copy_text(what.name());
                        text.append(" has the wrong length: expected ");
                        text
                    },
                };
                push_decimal(&mut text, expected as u128);
                text.append(" bytes, got ");
                push_decimal(&mut text, found as u128);
                text
            },
            WireError::WrongCount { what, count, expected, found } => match what {
                Entries::Rk => {
                    let mut text = copy_text("rk entries length mismatch: ");
                    push_decimal(&mut text, count as u128);
                    text.append(" entries need ");
                    push_decimal(&mut text, expected as u128);
                    text.append(" bytes, got ");
                    push_decimal(&mut text, found as u128);
                    text
                },
                Entries::Sk => {
                    let mut text = copy_text("sk entry list length mismatch: expected ");
                    push_decimal(&mut text, expected as u128);
                    text.append(" bytes for ");
                    push_decimal(&mut text, count as u128);
                    text.append(" entries, got ");
                    push_decimal(&mut text, found as u128);
                    text
                },
            },
            WireError::TrailingBytes { what, count } => {
                let mut text = copy_text(what.name());
                text.append(" has ");
                push_decimal(&mut text, count as u128);
                text.append(" trailing bytes");
                text
            },
            WireError::InvalidUtf8 { what } => copy_text(what.complaint()),
            WireError::MalformedDelta => copy_text("store patch carried a malformed delta"),
        }
    }

    /// The error with the place at which a field of a message of a given length
    /// begins, where it is within a field that the bytes end.
    pub open spec fn located(self, total: nat) -> WireError {
        match self {
            WireError::Truncated { part, left } => WireError::TruncatedAt {
                part,
                offset: if left <= total {
                    (total - left) as u64
                } else {
                    0
                },
            },
            _ => self,
        }
    }

    pub fn locate(self, total: usize) -> (e: WireError)
        ensures
            e == self.located(total as nat),
    {
        match self {
            WireError::Truncated { part, left } => WireError::TruncatedAt {
                part,
                offset: (total as u64).saturating_sub(left),
            },
            _ => self,
        }
    }

    /// The error of a text, for a given field.
    pub open spec fn of_text(self, what: TextField) -> WireError {
        match self {
            WireError::InvalidUtf8 { .. } => WireError::InvalidUtf8 { what },
            _ => self,
        }
    }

    pub fn in_text(self, what: TextField) -> (e: WireError)
        ensures
            e == self.of_text(what),
    {
        match self {
            WireError::InvalidUtf8 { .. } => WireError::InvalidUtf8 { what },
            _ => self,
        }
    }

    /// The error of a flag, for a given one.
    pub open spec fn of_flag(self, flag: Tag, missing: Missing) -> WireError {
        match self {
            WireError::UnknownTag { tag, .. } => WireError::UnknownTag { what: flag, tag },
            WireError::Truncated { part: Part::U8, .. } => WireError::Missing { what: missing },
            _ => self,
        }
    }

    pub fn in_flag(self, flag: Tag, missing: Missing) -> (e: WireError)
        ensures
            e == self.of_flag(flag, missing),
    {
        match self {
            WireError::UnknownTag { tag, .. } => WireError::UnknownTag { what: flag, tag },
            WireError::Truncated { part: Part::U8, .. } => WireError::Missing { what: missing },
            _ => self,
        }
    }
}

/// A result whose error tells the place in a message of a given length.
pub open spec fn placed<A>(r: Result<A, WireError>, total: nat) -> Result<A, WireError> {
    match r {
        Ok(value) => Ok(value),
        Err(e) => Err(e.located(total)),
    }
}

} // verus!
