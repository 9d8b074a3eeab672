//! The first version of commands: a level of privilege, an action and a run
//! counter.
use crate::gotw::user::User;
use crate::text::{chars_eq_str, chars_of, contains_str, occurs_in};
use vstd::prelude::*;

verus! {

/// A command of the first version.
pub struct Command {
    perms: CommandPerms,
    action: CommandAction,
    runs: usize,
}

/// Who may run a command, from least to most privileged.
#[derive(PartialEq, Eq, PartialOrd, Structural)]
pub enum CommandPerms {
    Anyone,
    Vip,
    Mod,
    Broadcaster,
}

impl CommandPerms {
    /// The place of the level in the order `Anyone < Vip < Mod < Broadcaster`.
    pub open spec fn rank(&self) -> nat {
        match self {
            CommandPerms::Anyone => 0,
            CommandPerms::Vip => 1,
            CommandPerms::Mod => 2,
            CommandPerms::Broadcaster => 3,
        }
    }

    fn rank_of(&self) -> (r: u8)
        ensures
            r == self.rank(),
    {
        match self {
            CommandPerms::Anyone => 0,
            CommandPerms::Vip => 1,
            CommandPerms::Mod => 2,
            CommandPerms::Broadcaster => 3,
        }
    }

    /// The highest level that a user with these tags holds: the broadcaster
    /// badge, then the `mod` tag set to `1`, then the vip badge.
    pub open spec fn max_spec(tags: Map<Seq<char>, Seq<char>>) -> CommandPerms {
        if tags.contains_key("badges"@) && occurs_in("broadcaster"@, tags["badges"@]) {
            CommandPerms::Broadcaster
        } else if tags.contains_key("mod"@) && tags["mod"@] == "1"@ {
            CommandPerms::Mod
        } else if tags.contains_key("badges"@) && occurs_in("vip"@, tags["badges"@]) {
            CommandPerms::Vip
        } else {
            CommandPerms::Anyone
        }
    }

    /// The highest level that `user` holds; a missing tag counts as empty
    /// (and so grants nothing).
    pub fn max(user: &User) -> (r: Self)
        ensures
            r == Self::max_spec(user.tags_view()),
    {
        let broadcaster = match user.tag("badges") {
            Some(b) => {
                let bc = chars_of(b.as_str());
                contains_str(bc.as_slice(), "broadcaster")
            },
            None => false,
        };
        if broadcaster {
            return CommandPerms::Broadcaster;
        }
        let moderator = match user.tag("mod") {
            Some(m) => {
                let mc = chars_of(m.as_str());
                chars_eq_str(mc.as_slice(), "1")
            },
            None => false,
        };
        if moderator {
            return CommandPerms::Mod;
        }
        let vip = match user.tag("badges") {
            Some(b) => {
                let bc = chars_of(b.as_str());
                contains_str(bc.as_slice(), "vip")
            },
            None => false,
        };
        if vip {
            CommandPerms::Vip
        } else {
            CommandPerms::Anyone
        }
    }
}

impl Command {
    pub closed spec fn perms_view(&self) -> CommandPerms {
        self.perms
    }

    pub closed spec fn action_view(&self) -> CommandAction {
        self.action
    }

    pub closed spec fn runs_view(&self) -> nat {
        self.runs as nat
    }

    /// A command that has not run yet.
    pub fn new(perms: CommandPerms, action: CommandAction) -> (r: Self)
        ensures
            r.perms_view() == perms,
            r.action_view() == action,
            r.runs_view() == 0,
    {
        Self { perms, action, runs: 0 }
    }

    /// Runs the command for `user` if the user's level reaches the command's:
    /// then the run is counted and the answer is `true`; else nothing changes
    /// and the answer is `false`.
    pub fn run(&mut self, user: User) -> (r: bool)
        requires
            old(self).runs_view() < usize::MAX,
        ensures
            r == (CommandPerms::max_spec(user.tags_view()).rank() >= old(self).perms_view().rank()),
            final(self).perms_view() == old(self).perms_view(),
            final(self).action_view() == old(self).action_view(),
            final(self).runs_view() == if r {
                old(self).runs_view() + 1
            } else {
                old(self).runs_view()
            },
    {
        if self.perms.rank_of() > CommandPerms::max(&user).rank_of() {
            return false;
        }
        self.runs = self.runs + 1;
        true
    }
}

/// What a command of the first version answers with.
pub enum CommandAction {
    Static { ret: String },
    Template { template: String },
    Script { command: String, file: String },
}

/// The levels are ordered `Anyone < Vip < Mod < Broadcaster`, each strictly
/// above the one before: a sender below a command's level (a vip for a
/// moderators' command) does not run it.
pub proof fn law_levels_ordered()
    ensures
        CommandPerms::Anyone.rank() < CommandPerms::Vip.rank(),
        CommandPerms::Vip.rank() < CommandPerms::Mod.rank(),
        CommandPerms::Mod.rank() < CommandPerms::Broadcaster.rank(),
{
}

/// A sender holds a level only by the tag that grants it: broadcaster exactly
/// when the `badges` tag contains `broadcaster`; moderator only with the
/// `mod` tag set to `1`; vip only when the `badges` tag contains `vip`; and
/// a sender whose tags grant none of these is `Anyone`.
pub proof fn law_levels_from_tags(tags: Map<Seq<char>, Seq<char>>)
    ensures
        (CommandPerms::max_spec(tags) == CommandPerms::Broadcaster) <==> (tags.contains_key(
            "badges"@,
        ) && occurs_in("broadcaster"@, tags["badges"@])),
        CommandPerms::max_spec(tags) == CommandPerms::Mod ==> tags.contains_key("mod"@)
            && tags["mod"@] == "1"@,
        CommandPerms::max_spec(tags) == CommandPerms::Vip ==> tags.contains_key("badges"@)
            && occurs_in("vip"@, tags["badges"@]),
        !(tags.contains_key("badges"@) && occurs_in("broadcaster"@, tags["badges"@]))
            && !(tags.contains_key("badges"@) && occurs_in("vip"@, tags["badges"@]))
            && !(tags.contains_key("mod"@) && tags["mod"@] == "1"@) ==> CommandPerms::max_spec(
            tags,
        ) == CommandPerms::Anyone,
{
}

} // verus!
