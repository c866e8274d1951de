//! Per-role connection handlers: the small state machines that route
//! parsed commands to the storage engine.
//!
//! Each handler is the decision logic alone: it takes one parsed command
//! and answers with the action the connection task must perform. The task
//! performs the I/O (loading a manifest, appending, reading a file) and
//! reports completions back, so the state here always reflects what
//! actually happened.

use vstd::prelude::*;

use crate::sesp::{Command, CommandModel};
use crate::types::Message;

verus! {

/// What an admin connection must do for one command.
#[derive(Debug, PartialEq)]
pub enum AdminAction {
    /// Create the topic of this name.
    Create(Vec<u8>),
    /// Delete the topic of this name, subtree and all.
    Delete(Vec<u8>),
    /// Answer negatively: the admin channel takes nothing else.
    Reject,
}

/// The admin handler: accepts topic lifecycle commands and nothing else.
pub struct SimpleAdminConnectionHandler;

impl SimpleAdminConnectionHandler {
    pub fn new() -> (r: Self) {
        SimpleAdminConnectionHandler
    }

    /// Routes one command: create and delete pass through, every other
    /// verb is refused.
    pub fn handle_command(&self, cmd: Command) -> (r: AdminAction)
        ensures
            (match cmd@ {
                CommandModel::CreateTopic(n) => r matches AdminAction::Create(v) && v@ == n,
                CommandModel::DeleteTopic(n) => r matches AdminAction::Delete(v) && v@ == n,
                _ => r == AdminAction::Reject,
            }),
    {
        match cmd {
            Command::CreateTopic(name) => AdminAction::Create(name),
            Command::DeleteTopic(name) => AdminAction::Delete(name),
            _ => AdminAction::Reject,
        }
    }
}

/// What a publisher connection must do for one command.
#[derive(Debug, PartialEq)]
pub enum PublisherAction {
    /// Load the topic of this name and construct its writer; confirm with
    /// `confirm_selected` on success.
    Select(Vec<u8>),
    /// Append this message through the selected topic's writer.
    Publish(Message),
    /// Answer negatively: publish before any topic was selected.
    RejectUnselected,
    /// Answer negatively: the verb has no meaning on this channel, or the
    /// line was invalid.
    Reject,
}

/// The publisher handler: unselected until a topic is chosen, then a
/// conduit for publish commands.
pub struct SimplePublisherConnectionHandler {
    selected: bool,
}

impl SimplePublisherConnectionHandler {
    /// Whether a topic writer is attached to this connection.
    pub closed spec fn spec_selected(self) -> bool {
        self.selected
    }

    pub fn new() -> (r: Self)
        ensures
            !r.spec_selected(),
    {
        SimplePublisherConnectionHandler { selected: false }
    }

    /// Records that the topic selection completed: the manifest loaded
    /// and a writer was constructed.
    pub fn confirm_selected(&mut self)
        ensures
            final(self).spec_selected(),
    {
        self.selected = true;
    }

    /// Routes one command. Selection is asked for in any state; a publish
    /// goes through only once a topic is selected; everything else is
    /// refused and the connection stays open.
    pub fn handle_command(&self, cmd: Command) -> (r: PublisherAction)
        ensures
            (match cmd@ {
                CommandModel::SelectTopic(n) => r matches PublisherAction::Select(v) && v@ == n,
                CommandModel::PublishMessage(b) => if self.spec_selected() {
                    r matches PublisherAction::Publish(m) && m.bytes() == b
                } else {
                    r == PublisherAction::RejectUnselected
                },
                _ => r == PublisherAction::Reject,
            }),
    {
        match cmd {
            Command::SelectTopic(name) => PublisherAction::Select(name),
            Command::PublishMessage(msg) => {
                if self.selected {
                    PublisherAction::Publish(msg)
                } else {
                    PublisherAction::RejectUnselected
                }
            },
            _ => PublisherAction::Reject,
        }
    }
}

/// What a subscriber connection must do for one command.
#[derive(Debug, PartialEq)]
pub enum SubscriberAction {
    /// Load the topic of this name and construct its reader; confirm with
    /// `confirm_selected` on success.
    Select(Vec<u8>),
    /// Read this offset through the selected topic's reader; on a message
    /// call `advance` after responding.
    Read(usize),
    /// The offset was set; answer positively.
    OffsetSet,
    /// Answer negatively: read or seek before any topic was selected.
    RejectUnselected,
    /// Answer negatively: the verb has no meaning on this channel, or the
    /// line was invalid.
    Reject,
}

/// The subscriber handler: unselected until a topic is chosen, then a
/// cursor over that topic's offsets.
pub struct SimpleSubscriberConnectionHandler {
    selected: bool,
    current_offset: usize,
}

impl SimpleSubscriberConnectionHandler {
    pub closed spec fn spec_selected(self) -> bool {
        self.selected
    }

    /// The offset the next read serves.
    pub closed spec fn spec_offset(self) -> usize {
        self.current_offset
    }

    pub fn new() -> (r: Self)
        ensures
            !r.spec_selected(),
            r.spec_offset() == 0,
    {
        SimpleSubscriberConnectionHandler { selected: false, current_offset: 0 }
    }

    /// Records that the topic selection completed; the cursor starts at
    /// offset zero.
    pub fn confirm_selected(&mut self)
        ensures
            final(self).spec_selected(),
            final(self).spec_offset() == 0,
    {
        self.selected = true;
        self.current_offset = 0;
    }

    /// Records that a read served a message: the cursor moves forward.
    pub fn advance(&mut self)
        requires
            old(self).spec_offset() < usize::MAX,
        ensures
            final(self).spec_selected() == old(self).spec_selected(),
            final(self).spec_offset() == old(self).spec_offset() + 1,
    {
        self.current_offset = self.current_offset + 1;
    }

    /// Routes one command. Selecting is asked for in any state; setting
    /// the cursor and reading work only once a topic is selected.
    pub fn handle_command(&mut self, cmd: Command) -> (r: SubscriberAction)
        ensures
            final(self).spec_selected() == old(self).spec_selected(),
            (match cmd@ {
                CommandModel::SelectTopic(n) => r matches SubscriberAction::Select(v) && v@ == n
                    && final(self).spec_offset() == old(self).spec_offset(),
                CommandModel::SetReadOffset(o) => if old(self).spec_selected() {
                    r == SubscriberAction::OffsetSet && final(self).spec_offset() == o
                } else {
                    r == SubscriberAction::RejectUnselected && final(self).spec_offset() == old(
                        self,
                    ).spec_offset()
                },
                CommandModel::ReadMessage => (if old(self).spec_selected() {
                    r == SubscriberAction::Read(old(self).spec_offset())
                } else {
                    r == SubscriberAction::RejectUnselected
                }) && final(self).spec_offset() == old(self).spec_offset(),
                _ => r == SubscriberAction::Reject && final(self).spec_offset() == old(
                    self,
                ).spec_offset(),
            }),
    {
        match cmd {
            Command::SelectTopic(name) => SubscriberAction::Select(name),
            Command::SetReadOffset(offset) => {
                if self.selected {
                    self.current_offset = offset;
                    SubscriberAction::OffsetSet
                } else {
                    SubscriberAction::RejectUnselected
                }
            },
            Command::ReadMessage => {
                if self.selected {
                    SubscriberAction::Read(self.current_offset)
                } else {
                    SubscriberAction::RejectUnselected
                }
            },
            _ => SubscriberAction::Reject,
        }
    }
}

} // verus!
