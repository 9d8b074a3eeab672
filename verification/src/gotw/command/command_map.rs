//! The tables of commands, triggers and aliases, and what a message does to
//! them.
use crate::assoc::{
    find_last, is_last_key, key_is, keys_unique, lemma_pairs_map_has_key, lemma_pairs_map_key_held,
    lemma_pairs_map_last, lemma_pairs_map_update_last, pairs_map, put, remove_key,
};
use crate::gotw::bot::Message;
use crate::gotw::command::commands::{
    added_action, added_name, added_settings, lowered, made_from, Command, CommandPerms,
    NewCommand,
};
use crate::gotw::command::CommandError;
use crate::gotw::{reply_view, BotError, BotErrorView, BotResult};
use crate::text::{
    append_chars, ascii_lowercase, begins_with_char, chars_eq, chars_of, starts_with_str,
};
use vstd::prelude::*;

verus! {

/// A line that adds a command or trigger: `!commands add ..` or `+..`.
pub open spec fn is_add(raw: Seq<char>) -> bool {
    "!commands add"@.is_prefix_of(raw) || begins_with_char(raw, '+')
}

/// A line that deletes a command or trigger: `!commands del ..` or `-..`.
pub open spec fn is_del(raw: Seq<char>) -> bool {
    "!commands del"@.is_prefix_of(raw) || begins_with_char(raw, '-')
}

/// A line that deletes an alias: `!commands unalias ..`.
pub open spec fn is_unalias(raw: Seq<char>) -> bool {
    "!commands unalias"@.is_prefix_of(raw)
}

/// The position of the word that a delete line names: the second word after
/// `-`, the third after `!commands del`.
pub open spec fn del_index(raw: Seq<char>) -> int {
    if begins_with_char(raw, '-') {
        1
    } else {
        2
    }
}

/// Whether the entry `key`, holding `c`, answers to the word `w`: the word
/// is the key, or, for an entry that does not tell letter cases apart, the
/// word is the key in another letter case.
pub open spec fn answers_to(key: Seq<char>, c: Command, w: Seq<char>) -> bool {
    key == w || (!c.case_view() && lowered(key) == lowered(w))
}

/// The key of the last position of `s` whose entry (as the table `m` holds
/// it) answers to `w`.
pub open spec fn last_answering(
    s: Seq<(String, Command)>,
    m: Map<Seq<char>, Command>,
    w: Seq<char>,
) -> Option<Seq<char>>
    decreases s.len(),
{
    if s.len() == 0 {
        None
    } else if answers_to(s.last().0@, m[s.last().0@], w) {
        Some(s.last().0@)
    } else {
        last_answering(s.drop_last(), m, w)
    }
}

/// The entry of the table kept as the list `s` that the word `w` runs: the
/// entry of that very name, else the entry added last among those that
/// answer to `w`.
pub open spec fn key_for(s: Seq<(String, Command)>, w: Seq<char>) -> Option<Seq<char>> {
    let m = pairs_map(s);
    if m.contains_key(w) {
        Some(w)
    } else {
        last_answering(s, m, w)
    }
}

/// The position of the first word that is one of `keys`.
pub open spec fn first_match(ws: Seq<Seq<char>>, keys: Set<Seq<char>>) -> Option<int>
    decreases ws.len(),
{
    if ws.len() == 0 {
        None
    } else {
        match first_match(ws.drop_last(), keys) {
            Some(i) => Some(i),
            None => if keys.contains(ws.last()) {
                Some(ws.len() - 1)
            } else {
                None
            },
        }
    }
}

/// The level of the sender of `message`.
pub open spec fn sender_perms(message: Message) -> CommandPerms {
    CommandPerms::max_spec(message.sender.tags_view())
}

/// Whether `message` is a line that changes the tables: one of the
/// management lines, sent by a moderator or the broadcaster.
pub open spec fn manages(message: Message) -> bool {
    let raw = message.raw@;
    sender_perms(message).rank() >= 2 && (is_add(raw) || is_del(raw) || is_unalias(raw))
}

/// What running the entry `key` of the table `pre` does, for a sender of
/// level `perms`: if the level reaches the command's, the entry has run once
/// more and answers as `Command::run_answer` says (what its action gives, or
/// nothing while it cools down); else nothing changes and the answer is
/// `InsufficientPerms`.
pub open spec fn ran_entry(
    pre: Map<Seq<char>, Command>,
    post: Map<Seq<char>, Command>,
    key: Seq<char>,
    message: Message,
    perms: CommandPerms,
    r: Result<Option<Seq<char>>, BotErrorView>,
) -> bool {
    let c = pre[key];
    if perms.rank() >= c.perms_view().rank() {
        &&& post == pre.insert(key, post[key])
        &&& post[key].ran_from(c)
        &&& Command::run_answer(c, post[key], message, r)
    } else {
        &&& post == pre
        &&& r == Err::<Option<Seq<char>>, BotErrorView>(
            BotErrorView::Command(CommandError::InsufficientPerms),
        )
    }
}

/// Both tables are as they were.
pub open spec fn unchanged(pre: CommandMap, post: CommandMap) -> bool {
    &&& post.commands_view() == pre.commands_view()
    &&& post.triggers_view() == pre.triggers_view()
}

/// The reply that confirms a change: `what`, the name, then `done`.
pub open spec fn confirm(what: Seq<char>, name: Seq<char>, done: Seq<char>) -> Result<
    Option<Seq<char>>,
    BotErrorView,
> {
    Ok(Some(what + name + done))
}

/// The answer that refuses to add a name that the other table holds.
pub open spec fn refused_overlap() -> Result<Option<Seq<char>>, BotErrorView> {
    Err(BotErrorView::Command(CommandError::AlreadyRegistered))
}

/// What `message` does to the tables of commands and triggers `pre`, leaving
/// `post`, and what it answers (`r`).
///
/// A moderator or the broadcaster may add (the line's command goes to the
/// triggers when it has a priority, else to the commands, in place of any of
/// the same name; a name that the other table holds is refused), delete (the
/// named command, else the named trigger) or unalias. Any other line runs
/// the command that its first word names, else the trigger named by its first
/// word that names one, else nothing. A word names an entry of that name, or
/// one that does not tell letter cases apart and has the word's name in
/// another letter case (see `command_key` and `trigger_key`).
pub open spec fn tables_effect(
    pre: CommandMap,
    post: CommandMap,
    message: Message,
    r: Result<Option<Seq<char>>, BotErrorView>,
) -> bool {
    let perms = sender_perms(message);
    let raw = message.raw@;
    let ws = message.words.deep_view();
    if perms.rank() >= 2 && is_add(raw) {
        let name = added_name(raw);
        if added_settings(raw).priority is Some {
            if pre.commands_view().contains_key(name) {
                &&& unchanged(pre, post)
                &&& r == refused_overlap()
            } else {
                &&& post.triggers_view() == pre.triggers_view().insert(
                    name,
                    post.triggers_view()[name],
                )
                &&& made_from(post.triggers_view()[name], raw)
                &&& post.commands_view() == pre.commands_view()
                &&& r == confirm("Trigger "@, name, " successfully added"@)
            }
        } else {
            if pre.triggers_view().contains_key(name) {
                &&& unchanged(pre, post)
                &&& r == refused_overlap()
            } else {
                &&& post.commands_view() == pre.commands_view().insert(
                    name,
                    post.commands_view()[name],
                )
                &&& made_from(post.commands_view()[name], raw)
                &&& post.triggers_view() == pre.triggers_view()
                &&& r == confirm("Command "@, name, " successfully added"@)
            }
        }
    } else if perms.rank() >= 2 && is_del(raw) {
        let t = ws[del_index(raw)];
        if pre.commands_view().contains_key(t) {
            &&& post.commands_view() == pre.commands_view().remove(t)
            &&& post.triggers_view() == pre.triggers_view()
            &&& r == confirm("Command "@, t, " successfully removed"@)
        } else if pre.triggers_view().contains_key(t) {
            &&& post.triggers_view() == pre.triggers_view().remove(t)
            &&& post.commands_view() == pre.commands_view()
            &&& r == confirm("Trigger "@, t, " successfully removed"@)
        } else {
            &&& unchanged(pre, post)
            &&& r == Err::<Option<Seq<char>>, BotErrorView>(
                BotErrorView::Command(CommandError::NotRegistered),
            )
        }
    } else if perms.rank() >= 2 && is_unalias(raw) {
        &&& unchanged(pre, post)
        &&& r == Err::<Option<Seq<char>>, BotErrorView>(
            BotErrorView::Command(CommandError::NotRegistered),
        )
    } else {
        match pre.command_key(ws[0]) {
            Some(k) => {
                &&& ran_entry(pre.commands_view(), post.commands_view(), k, message, perms, r)
                &&& post.triggers_view() == pre.triggers_view()
            },
            None => match first_match(ws, pre.trigger_words()) {
                None => {
                    &&& unchanged(pre, post)
                    &&& r == Ok::<Option<Seq<char>>, BotErrorView>(None)
                },
                Some(i) => {
                    &&& ran_entry(
                        pre.triggers_view(),
                        post.triggers_view(),
                        pre.trigger_key(ws[i]).unwrap(),
                        message,
                        perms,
                        r,
                    )
                    &&& post.commands_view() == pre.commands_view()
                },
            },
        }
    }
}

/// What `message` does to the tables `pre`, leaving `post`, and what it
/// answers (`r`): what `tables_effect` says of the commands and triggers,
/// and the aliases stay as they were.
pub open spec fn try_run_effect(
    pre: CommandMap,
    post: CommandMap,
    message: Message,
    r: Result<Option<Seq<char>>, BotErrorView>,
) -> bool {
    &&& tables_effect(pre, post, message, r)
    &&& post.alias_names() == pre.alias_names()
}

/// What `message` needs for `try_run_cmd` to answer it: the word that a
/// delete or unalias line names, and a first word for any other line.
pub open spec fn has_needed_words(message: Message) -> bool {
    let perms = sender_perms(message);
    let raw = message.raw@;
    let n = message.words@.len();
    if perms.rank() >= 2 && is_add(raw) {
        true
    } else if perms.rank() >= 2 && is_del(raw) {
        n > del_index(raw)
    } else if perms.rank() >= 2 && is_unalias(raw) {
        n > 2
    } else {
        n >= 1
    }
}

proof fn lemma_first_match_prefix(ws: Seq<Seq<char>>, keys: Set<Seq<char>>, k: int, i: int)
    requires
        0 <= k <= ws.len(),
        first_match(ws.take(k), keys) == Some(i),
    ensures
        first_match(ws, keys) == Some(i),
    decreases ws.len() - k,
{
    if k == ws.len() {
        assert(ws.take(k) =~= ws);
    } else {
        assert(ws.take(k + 1).drop_last() =~= ws.take(k));
        lemma_first_match_prefix(ws, keys, k + 1, i);
    }
}

/// A key that `last_answering` gives is one of the table's and answers;
/// when it gives none, no position of the list answers.
proof fn lemma_last_answering(s: Seq<(String, Command)>, m: Map<Seq<char>, Command>, w: Seq<char>)
    requires
        forall|j: int| 0 <= j < s.len() ==> m.contains_key(#[trigger] s[j].0@),
    ensures
        last_answering(s, m, w) matches Some(k) ==> m.contains_key(k) && answers_to(k, m[k], w),
        last_answering(s, m, w) is None ==> forall|j: int|
            0 <= j < s.len() ==> !answers_to(#[trigger] s[j].0@, m[s[j].0@], w),
    decreases s.len(),
{
    if s.len() > 0 {
        let t = s.drop_last();
        assert forall|j: int| 0 <= j < t.len() implies m.contains_key(#[trigger] t[j].0@) by {
            assert(t[j] == s[j]);
        }
        lemma_last_answering(t, m, w);
        assert(m.contains_key(s[s.len() - 1].0@));
        if last_answering(s, m, w) is None {
            assert forall|j: int| 0 <= j < s.len() implies !answers_to(
                #[trigger] s[j].0@,
                m[s[j].0@],
                w,
            ) by {
                if j < t.len() {
                    assert(t[j] == s[j]);
                }
            }
        }
    }
}

/// What `key_for` gives: the word itself when it is a key; else a key that
/// answers to it, when one does.
proof fn lemma_key_for(s: Seq<(String, Command)>, w: Seq<char>)
    ensures
        pairs_map(s).contains_key(w) ==> key_for(s, w) == Some(w),
        key_for(s, w) matches Some(k) ==> pairs_map(s).contains_key(k) && answers_to(
            k,
            pairs_map(s)[k],
            w,
        ),
        key_for(s, w) is None ==> forall|k: Seq<char>| #[trigger]
            pairs_map(s).contains_key(k) ==> !answers_to(k, pairs_map(s)[k], w),
{
    let m = pairs_map(s);
    assert forall|j: int| 0 <= j < s.len() implies m.contains_key(#[trigger] s[j].0@) by {
        lemma_pairs_map_has_key(s, j);
    }
    lemma_last_answering(s, m, w);
    if key_for(s, w) is None {
        assert forall|k: Seq<char>| #[trigger] m.contains_key(k) implies !answers_to(k, m[k], w) by {
            lemma_pairs_map_key_held(s, k);
            let j = choose|j: int| 0 <= j < s.len() && (#[trigger] s[j]).0@ == k;
            assert(s[j].0@ == k);
        }
    }
}

/// The tables of the bot.
pub struct CommandMap {
    triggers: Vec<(String, Command)>,
    commands: Vec<(String, Command)>,
    aliases: Vec<(String, Vec<String>)>,
}

impl CommandMap {
    /// No name is stored twice in a table, no name is both a command and a
    /// trigger, and no alias is ever stored: nothing adds one.
    #[verifier::type_invariant]
    spec fn well_formed(self) -> bool {
        &&& keys_unique(self.commands@)
        &&& keys_unique(self.triggers@)
        &&& pairs_map(self.commands@).dom().disjoint(pairs_map(self.triggers@).dom())
        &&& self.aliases@.len() == 0
    }

    /// The commands, by name.
    pub closed spec fn commands_view(&self) -> Map<Seq<char>, Command> {
        pairs_map(self.commands@)
    }

    /// The triggers, by word.
    pub closed spec fn triggers_view(&self) -> Map<Seq<char>, Command> {
        pairs_map(self.triggers@)
    }

    /// The names of the aliases.
    pub closed spec fn alias_names(&self) -> Set<Seq<char>> {
        pairs_map(self.aliases@).dom()
    }

    /// The name of the command that the word `w` runs, if any.
    pub closed spec fn command_key(&self, w: Seq<char>) -> Option<Seq<char>> {
        key_for(self.commands@, w)
    }

    /// The word of the trigger that the word `w` runs, if any.
    pub closed spec fn trigger_key(&self, w: Seq<char>) -> Option<Seq<char>> {
        key_for(self.triggers@, w)
    }

    /// The words that run a trigger.
    pub open spec fn trigger_words(&self) -> Set<Seq<char>> {
        Set::new(|w: Seq<char>| self.trigger_key(w) is Some)
    }

    /// What a word runs: the entry of that very name when the table has one;
    /// else an entry that answers to the word, when one does; else nothing.
    pub proof fn lemma_lookup(self, w: Seq<char>)
        ensures
            self.commands_view().contains_key(w) ==> self.command_key(w) == Some(w),
            self.command_key(w) matches Some(k) ==> self.commands_view().contains_key(k)
                && answers_to(k, self.commands_view()[k], w),
            self.command_key(w) is None ==> forall|k: Seq<char>| #[trigger]
                self.commands_view().contains_key(k) ==> !answers_to(
                    k,
                    self.commands_view()[k],
                    w,
                ),
            self.triggers_view().contains_key(w) ==> self.trigger_key(w) == Some(w),
            self.trigger_key(w) matches Some(k) ==> self.triggers_view().contains_key(k)
                && answers_to(k, self.triggers_view()[k], w),
            self.trigger_key(w) is None ==> forall|k: Seq<char>| #[trigger]
                self.triggers_view().contains_key(k) ==> !answers_to(
                    k,
                    self.triggers_view()[k],
                    w,
                ),
    {
        lemma_key_for(self.commands@, w);
        lemma_key_for(self.triggers@, w);
    }

    /// Every command and every trigger has run fewer than `n` times.
    pub open spec fn counts_below(&self, n: nat) -> bool {
        &&& forall|k: Seq<char>| #[trigger]
            self.commands_view().contains_key(k) ==> self.commands_view()[k].runs_view() < n
        &&& forall|k: Seq<char>| #[trigger]
            self.triggers_view().contains_key(k) ==> self.triggers_view()[k].runs_view() < n
    }

    /// No command or trigger has run as often as its counter can count.
    pub open spec fn counts_ok(&self) -> bool {
        self.counts_below(usize::MAX as nat)
    }

    /// Empty tables.
    pub fn new() -> (r: Self)
        ensures
            r.commands_view() == Map::<Seq<char>, Command>::empty(),
            r.triggers_view() == Map::<Seq<char>, Command>::empty(),
            r.alias_names() == Set::<Seq<char>>::empty(),
            r.counts_ok(),
            r.commands_view().dom().disjoint(r.triggers_view().dom()),
    {
        CommandMap { triggers: Vec::new(), commands: Vec::new(), aliases: Vec::new() }
    }

    /// Whether every run counter can count one more run.
    pub fn can_count_runs(&self) -> (r: bool)
        ensures
            r == self.counts_ok(),
    {
        proof {
            use_type_invariant(self);
            lemma_counts_below(self.commands@, usize::MAX as nat);
            lemma_counts_below(self.triggers@, usize::MAX as nat);
        }
        let mut i: usize = 0;
        while i < self.commands.len()
            invariant
                i <= self.commands@.len(),
                forall|j: int| 0 <= j < i ==> (#[trigger] self.commands@[j]).1.runs_view() < usize::MAX,
            decreases self.commands.len() - i,
        {
            if !self.commands[i].1.can_count_run() {
                proof {
                    use_type_invariant(self);
                    let k = self.commands@[i as int].0@;
                    lemma_pairs_map_last(self.commands@, i as int, k);
                    assert(self.commands_view().contains_key(k));
                    assert(self.commands_view()[k].runs_view() >= usize::MAX);
                }
                return false;
            }
            i = i + 1;
        }
        let mut i: usize = 0;
        while i < self.triggers.len()
            invariant
                i <= self.triggers@.len(),
                forall|j: int| 0 <= j < self.commands@.len() ==> (#[trigger] self.commands@[j]).1.runs_view() < usize::MAX,
                forall|j: int| 0 <= j < i ==> (#[trigger] self.triggers@[j]).1.runs_view() < usize::MAX,
            decreases self.triggers.len() - i,
        {
            if !self.triggers[i].1.can_count_run() {
                proof {
                    use_type_invariant(self);
                    let k = self.triggers@[i as int].0@;
                    lemma_pairs_map_last(self.triggers@, i as int, k);
                    assert(self.triggers_view().contains_key(k));
                    assert(self.triggers_view()[k].runs_view() >= usize::MAX);
                }
                return false;
            }
            i = i + 1;
        }
        true
    }
}

/// In a list without repeated keys, every position has run fewer than `n`
/// times exactly when every entry of the table it stands for has.
proof fn lemma_counts_below(s: Seq<(String, Command)>, n: nat)
    requires
        keys_unique(s),
    ensures
        (forall|j: int| 0 <= j < s.len() ==> (#[trigger] s[j]).1.runs_view() < n) <==> (forall|
            k: Seq<char>,
        | #[trigger] pairs_map(s).contains_key(k) ==> pairs_map(s)[k].runs_view() < n),
{
    let m = pairs_map(s);
    if forall|j: int| 0 <= j < s.len() ==> (#[trigger] s[j]).1.runs_view() < n {
        assert forall|k: Seq<char>| #[trigger] m.contains_key(k) implies m[k].runs_view() < n by {
            lemma_pairs_map_key_held(s, k);
            let j = choose|j: int| 0 <= j < s.len() && (#[trigger] s[j]).0@ == k;
            lemma_pairs_map_last(s, j, k);
        }
    }
    if forall|k: Seq<char>| #[trigger] m.contains_key(k) ==> m[k].runs_view() < n {
        assert forall|j: int| 0 <= j < s.len() implies (#[trigger] s[j]).1.runs_view() < n by {
            lemma_pairs_map_last(s, j, s[j].0@);
            assert(m.contains_key(s[j].0@));
        }
    }
}

/// `what`, the name, then `done`.
fn confirmation(what: &str, name: &[char], done: &str) -> (r: String)
    ensures
        r@ == what@ + name@ + done@,
{
    let mut r = what.to_owned();
    append_chars(&mut r, name);
    let d = chars_of(done);
    append_chars(&mut r, d.as_slice());
    r
}

/// Runs the entry at position `i` of a table for a sender of level `perms`.
fn run_entry(list: &mut Vec<(String, Command)>, i: usize, perms: CommandPerms, message: Message) -> (r:
    BotResult<Option<String>>)
    requires
        is_last_key(old(list)@, i as int, old(list)@[i as int].0@),
        old(list)@[i as int].1.runs_view() < usize::MAX,
        pairs_map(old(list)@)[old(list)@[i as int].0@] == old(list)@[i as int].1,
    ensures
        keys_unique(old(list)@) ==> keys_unique(final(list)@),
        pairs_map(final(list)@).dom() == pairs_map(old(list)@).dom(),
        ran_entry(
            pairs_map(old(list)@),
            pairs_map(final(list)@),
            old(list)@[i as int].0@,
            message,
            perms,
            reply_view(r),
        ),
{
    let ghost pre = list@;
    let needed = list[i].1.perms();
    if perms.at_least(&needed) {
        let (k, mut c) = list.remove(i);
        let r = c.run(message);
        list.insert(i, (k, c));
        proof {
            assert(list@ =~= pre.update(i as int, (pre[i as int].0, c)));
            assert forall|a: int, b: int|
                keys_unique(pre) && 0 <= a < b < list@.len() implies (#[trigger] list@[a]).0@ != (
            #[trigger] list@[b]).0@ by {
                assert(list@[a].0@ == pre[a].0@ && list@[b].0@ == pre[b].0@);
            }
            lemma_pairs_map_update_last(pre, i as int, c);
            lemma_pairs_map_last(pre, i as int, pre[i as int].0@);
            assert(pairs_map(list@)[pre[i as int].0@] == c);
            assert(pairs_map(list@).dom() =~= pairs_map(pre).dom());
        }
        r
    } else {
        Err(BotError::Command(CommandError::InsufficientPerms))
    }
}

/// Whether `message` has the words that `try_run_cmd` reads for it.
pub fn has_words_for(message: &Message) -> (r: bool)
    ensures
        r == has_needed_words(*message),
{
    let perms = CommandPerms::max(&message.sender);
    let raw = chars_of(message.raw.as_str());
    let n = message.words.len();
    if perms.at_least(&CommandPerms::Mod) {
        let plus = raw.len() > 0 && raw[0] == '+';
        if starts_with_str(raw.as_slice(), "!commands add") || plus {
            return true;
        }
        let minus = raw.len() > 0 && raw[0] == '-';
        if starts_with_str(raw.as_slice(), "!commands del") || minus {
            return if minus {
                n > 1
            } else {
                n > 2
            };
        }
        if starts_with_str(raw.as_slice(), "!commands unalias") {
            return n > 2;
        }
    }
    n >= 1
}

/// The position of the entry of a table that the word `w` runs (see
/// `key_for`), if any.
fn find_answering(list: &Vec<(String, Command)>, w: &[char]) -> (r: Option<usize>)
    requires
        keys_unique(list@),
    ensures
        match r {
            Some(i) => {
                &&& key_for(list@, w@) == Some(list@[i as int].0@)
                &&& is_last_key(list@, i as int, list@[i as int].0@)
                &&& pairs_map(list@).contains_key(list@[i as int].0@)
                &&& pairs_map(list@)[list@[i as int].0@] == list@[i as int].1
            },
            None => key_for(list@, w@) is None,
        },
{
    let ghost s = list@;
    let ghost m = pairs_map(s);
    match find_last(list, w) {
        Some(i) => {
            return Some(i);
        },
        None => {},
    }
    let lw = ascii_lowercase(w);
    assert(lw@ =~= lowered(w@));
    let mut i = list.len();
    assert(s.take(i as int) =~= s);
    while i > 0
        invariant
            s == list@,
            m == pairs_map(s),
            keys_unique(s),
            !m.contains_key(w@),
            i <= s.len(),
            lw@ == lowered(w@),
            last_answering(s, m, w@) == last_answering(s.take(i as int), m, w@),
        decreases i,
    {
        let e = &list[i - 1];
        proof {
            lemma_pairs_map_last(s, i - 1, s[i - 1].0@);
        }
        let exact = key_is(e, w);
        let loose = if e.1.is_case_sensitive() {
            false
        } else {
            let kc = chars_of(e.0.as_str());
            let lk = ascii_lowercase(kc.as_slice());
            assert(lk@ =~= lowered(e.0@));
            chars_eq(lk.as_slice(), lw.as_slice())
        };
        assert(s.take(i as int).drop_last() =~= s.take(i - 1));
        assert(s.take(i as int).last() == s[i - 1]);
        if exact || loose {
            proof {
                lemma_pairs_map_has_key(s, i - 1);
            }
            return Some(i - 1);
        }
        i = i - 1;
    }
    None
}

impl CommandMap {
    /// The first word that names a trigger, with the position of that
    /// trigger in its table. No alias is ever stored (nothing adds one), so
    /// a word names nothing else.
    fn find_word(&self, words: &Vec<String>) -> (r: Option<(usize, usize)>)
        ensures
            match r {
                Some((idx, i)) => {
                    &&& idx < words@.len()
                    &&& first_match(words.deep_view(), self.trigger_words()) == Some(idx as int)
                    &&& self.trigger_key(words.deep_view()[idx as int]) == Some(
                        self.triggers@[i as int].0@,
                    )
                    &&& is_last_key(self.triggers@, i as int, self.triggers@[i as int].0@)
                    &&& self.triggers_view().contains_key(self.triggers@[i as int].0@)
                    &&& self.triggers_view()[self.triggers@[i as int].0@]
                        == self.triggers@[i as int].1
                },
                None => first_match(words.deep_view(), self.trigger_words()) is None,
            },
    {
        proof {
            use_type_invariant(self);
        }
        let ghost ws = words.deep_view();
        let ghost keys = self.trigger_words();
        let mut idx: usize = 0;
        while idx < words.len()
            invariant
                ws == words.deep_view(),
                keys == self.trigger_words(),
                keys_unique(self.triggers@),
                idx <= ws.len(),
                first_match(ws.take(idx as int), keys) is None,
            decreases words.len() - idx,
        {
            let w = chars_of(words[idx].as_str());
            assert(ws.take(idx + 1).drop_last() =~= ws.take(idx as int));
            assert(ws.take(idx + 1).last() == w@);
            match find_answering(&self.triggers, w.as_slice()) {
                Some(i) => {
                    assert(keys.contains(w@));
                    proof {
                        lemma_first_match_prefix(ws, keys, idx + 1, idx as int);
                    }
                    return Some((idx, i));
                },
                None => {},
            }
            idx = idx + 1;
        }
        assert(ws.take(idx as int) =~= ws);
        None
    }

    /// Answers a message: a management line from a moderator or the
    /// broadcaster changes the tables, any other line runs the command or
    /// trigger that it names (see `tables_effect`). The names of commands and
    /// triggers stay apart, and at most one run counter goes up, by one.
    pub fn try_run_cmd(&mut self, message: Message) -> (r: BotResult<Option<String>>)
        requires
            old(self).counts_ok(),
            has_needed_words(message),
        ensures
            try_run_effect(*old(self), *final(self), message, reply_view(r)),
            final(self).commands_view().dom().disjoint(final(self).triggers_view().dom()),
            old(self).counts_below((usize::MAX - 1) as nat) ==> final(self).counts_ok(),
    {
        let ghost pre = *self;
        let r = self.answer(message);
        proof {
            if pre.counts_below((usize::MAX - 1) as nat) {
                law_one_run_per_message(pre, *self, message, reply_view(r), (usize::MAX - 1) as nat);
            }
        }
        r
    }

    /// What `try_run_cmd` does.
    fn answer(&mut self, message: Message) -> (r: BotResult<Option<String>>)
        requires
            old(self).counts_ok(),
            has_needed_words(message),
        ensures
            try_run_effect(*old(self), *final(self), message, reply_view(r)),
            final(self).commands_view().dom().disjoint(final(self).triggers_view().dom()),
    {
        proof {
            use_type_invariant(&*self);
        }
        let perms = CommandPerms::max(&message.sender);
        let raw = chars_of(message.raw.as_str());
        if perms.at_least(&CommandPerms::Mod) {
            let plus = raw.len() > 0 && raw[0] == '+';
            if starts_with_str(raw.as_slice(), "!commands add") || plus {
                let to_add = NewCommand::parse(message.raw.as_str());
                let name = chars_of(to_add.name.as_str());
                if to_add.cmd.is_trigger() {
                    if find_last(&self.commands, name.as_slice()).is_some() {
                        return Err(BotError::Command(CommandError::AlreadyRegistered));
                    }
                    let reply = confirmation("Trigger ", name.as_slice(), " successfully added");
                    let mut list = Vec::new();
                    std::mem::swap(&mut list, &mut self.triggers);
                    let ghost before = list@;
                    put(&mut list, to_add.name, to_add.cmd);
                    assert(pairs_map(self.commands@).dom().disjoint(pairs_map(list@).dom())) by {
                        assert(pairs_map(list@).dom() =~= pairs_map(before).dom().insert(name@));
                    }
                    self.triggers = list;
                    return Ok(Some(reply));
                } else {
                    if find_last(&self.triggers, name.as_slice()).is_some() {
                        return Err(BotError::Command(CommandError::AlreadyRegistered));
                    }
                    let reply = confirmation("Command ", name.as_slice(), " successfully added");
                    let mut list = Vec::new();
                    std::mem::swap(&mut list, &mut self.commands);
                    let ghost before = list@;
                    put(&mut list, to_add.name, to_add.cmd);
                    assert(pairs_map(list@).dom().disjoint(pairs_map(self.triggers@).dom())) by {
                        assert(pairs_map(list@).dom() =~= pairs_map(before).dom().insert(name@));
                    }
                    self.commands = list;
                    return Ok(Some(reply));
                }
            }
            let minus = raw.len() > 0 && raw[0] == '-';
            if starts_with_str(raw.as_slice(), "!commands del") || minus {
                let idx: usize = if minus {
                    1
                } else {
                    2
                };
                let t = chars_of(message.words[idx].as_str());
                if find_last(&self.commands, t.as_slice()).is_some() {
                    let mut list = Vec::new();
                    std::mem::swap(&mut list, &mut self.commands);
                    let ghost before = list@;
                    remove_key(&mut list, t.as_slice());
                    assert(pairs_map(list@).dom() =~= pairs_map(before).dom().remove(t@));
                    self.commands = list;
                    return Ok(Some(confirmation("Command ", t.as_slice(), " successfully removed")));
                } else if find_last(&self.triggers, t.as_slice()).is_some() {
                    let mut list = Vec::new();
                    std::mem::swap(&mut list, &mut self.triggers);
                    let ghost before = list@;
                    remove_key(&mut list, t.as_slice());
                    assert(pairs_map(list@).dom() =~= pairs_map(before).dom().remove(t@));
                    self.triggers = list;
                    return Ok(Some(confirmation("Trigger ", t.as_slice(), " successfully removed")));
                } else {
                    return Err(BotError::Command(CommandError::NotRegistered));
                }
            }
            if starts_with_str(raw.as_slice(), "!commands unalias") {
                let a = chars_of(message.words[2].as_str());
                if find_last(&self.aliases, a.as_slice()).is_some() {
                    let mut list = Vec::new();
                    std::mem::swap(&mut list, &mut self.aliases);
                    remove_key(&mut list, a.as_slice());
                    self.aliases = list;
                    return Ok(Some(confirmation("Alias ", a.as_slice(), " successfully removed")));
                } else {
                    return Err(BotError::Command(CommandError::NotRegistered));
                }
            }
        }
        let w0 = chars_of(message.words[0].as_str());
        match find_answering(&self.commands, w0.as_slice()) {
            Some(i) => {
                assert(self.commands_view().contains_key(self.commands@[i as int].0@));
                let mut list = Vec::new();
                std::mem::swap(&mut list, &mut self.commands);
                let r = run_entry(&mut list, i, perms, message);
                self.commands = list;
                return r;
            },
            None => {},
        }
        match self.find_word(&message.words) {
            Some((_, i)) => {
                let mut list = Vec::new();
                std::mem::swap(&mut list, &mut self.triggers);
                let r = run_entry(&mut list, i, perms, message);
                self.triggers = list;
                r
            },
            None => Ok(None),
        }
    }
}

/// Running an entry keeps the names of the table.
proof fn lemma_ran_entry_keeps_names(
    pre: Map<Seq<char>, Command>,
    post: Map<Seq<char>, Command>,
    key: Seq<char>,
    message: Message,
    perms: CommandPerms,
    r: Result<Option<Seq<char>>, BotErrorView>,
)
    requires
        pre.contains_key(key),
        ran_entry(pre, post, key, message, perms, r),
    ensures
        post.dom() == pre.dom(),
{
    assert(post.dom() =~= pre.dom());
}

/// Only a moderator or the broadcaster changes which commands, triggers and
/// aliases exist: whatever anyone else sends, the names in the three tables
/// stay as they were.
pub proof fn law_only_moderators_change_names(
    pre: CommandMap,
    post: CommandMap,
    message: Message,
    r: Result<Option<Seq<char>>, BotErrorView>,
)
    requires
        try_run_effect(pre, post, message, r),
        sender_perms(message).rank() < 2,
    ensures
        post.commands_view().dom() == pre.commands_view().dom(),
        post.triggers_view().dom() == pre.triggers_view().dom(),
        post.alias_names() == pre.alias_names(),
{
    lemma_run_keeps_names(pre, post, message, r);
}

/// A line that is no management line keeps the names of both tables.
proof fn lemma_run_keeps_names(
    pre: CommandMap,
    post: CommandMap,
    message: Message,
    r: Result<Option<Seq<char>>, BotErrorView>,
)
    requires
        tables_effect(pre, post, message, r),
        !manages(message),
    ensures
        post.commands_view().dom() == pre.commands_view().dom(),
        post.triggers_view().dom() == pre.triggers_view().dom(),
{
    let ws = message.words.deep_view();
    let perms = sender_perms(message);
    pre.lemma_lookup(ws[0]);
    match pre.command_key(ws[0]) {
        Some(k) => {
            lemma_ran_entry_keeps_names(pre.commands_view(), post.commands_view(), k, message, perms, r);
        },
        None => match first_match(ws, pre.trigger_words()) {
            None => {},
            Some(i) => {
                lemma_first_match_found(ws, pre.trigger_words());
                pre.lemma_lookup(ws[i]);
                lemma_ran_entry_keeps_names(
                    pre.triggers_view(),
                    post.triggers_view(),
                    pre.trigger_key(ws[i]).unwrap(),
                    message,
                    perms,
                    r,
                );
            },
        },
    }
}

/// No name is both a command and a trigger: whatever a message does, a
/// name that is not in both tables before is not in both after.
pub proof fn law_names_never_overlap(
    pre: CommandMap,
    post: CommandMap,
    message: Message,
    r: Result<Option<Seq<char>>, BotErrorView>,
)
    requires
        try_run_effect(pre, post, message, r),
        pre.commands_view().dom().disjoint(pre.triggers_view().dom()),
    ensures
        post.commands_view().dom().disjoint(post.triggers_view().dom()),
{
    let raw = message.raw@;
    if manages(message) {
        if is_add(raw) {
            let name = added_name(raw);
            if added_settings(raw).priority is Some {
                if !pre.commands_view().contains_key(name) {
                    assert(post.triggers_view().dom() =~= pre.triggers_view().dom().insert(name));
                }
            } else {
                if !pre.triggers_view().contains_key(name) {
                    assert(post.commands_view().dom() =~= pre.commands_view().dom().insert(name));
                }
            }
        } else if is_del(raw) {
            assert(post.commands_view().dom().subset_of(pre.commands_view().dom()));
            assert(post.triggers_view().dom().subset_of(pre.triggers_view().dom()));
        }
    } else {
        lemma_run_keeps_names(pre, post, message, r);
    }
}

/// Along any run of the bot that starts from empty tables, each state the
/// result of `try_run_cmd` on the one before, no state has a name that is
/// both a command and a trigger.
pub proof fn law_reachable_tables_never_overlap(
    states: Seq<CommandMap>,
    messages: Seq<Message>,
    replies: Seq<Result<Option<Seq<char>>, BotErrorView>>,
)
    requires
        states.len() >= 1,
        states[0].commands_view() == Map::<Seq<char>, Command>::empty(),
        states[0].triggers_view() == Map::<Seq<char>, Command>::empty(),
        messages.len() == states.len() - 1,
        replies.len() == states.len() - 1,
        forall|i: int|
            0 <= i < messages.len() ==> try_run_effect(
                #[trigger] states[i],
                states[i + 1],
                messages[i],
                replies[i],
            ),
    ensures
        forall|i: int|
            0 <= i < states.len() ==> (#[trigger] states[i]).commands_view().dom().disjoint(
                states[i].triggers_view().dom(),
            ),
    decreases states.len(),
{
    if states.len() > 1 {
        let n = states.len() - 1;
        law_reachable_tables_never_overlap(states.drop_last(), messages.drop_last(), replies.drop_last());
        assert(states.drop_last()[n - 1] == states[n - 1]);
        assert(try_run_effect(states[n - 1], states[n], messages[n - 1], replies[n - 1]));
        law_names_never_overlap(states[n - 1], states[n], messages[n - 1], replies[n - 1]);
        assert forall|i: int| 0 <= i < states.len() implies (#[trigger] states[i]).commands_view().dom().disjoint(
            states[i].triggers_view().dom(),
        ) by {
            if i < n {
                assert(states.drop_last()[i] == states[i]);
            }
        }
    }
}

/// A message adds at most one run to the counters: when every command and
/// trigger has run fewer than `n` times before, each has run fewer than
/// `n + 1` times after.
pub proof fn law_one_run_per_message(
    pre: CommandMap,
    post: CommandMap,
    message: Message,
    r: Result<Option<Seq<char>>, BotErrorView>,
    n: nat,
)
    requires
        try_run_effect(pre, post, message, r),
        pre.counts_below(n),
    ensures
        post.counts_below(n + 1),
{
    let raw = message.raw@;
    let ws = message.words.deep_view();
    let perms = sender_perms(message);
    let pc = pre.commands_view();
    let pt = pre.triggers_view();
    let qc = post.commands_view();
    let qt = post.triggers_view();
    if manages(message) {
        if is_add(raw) {
            let name = added_name(raw);
            assert forall|k: Seq<char>| #[trigger] qc.contains_key(k) implies qc[k].runs_view() < n + 1 by {
                if k != name {
                    assert(pc.contains_key(k));
                }
            }
            assert forall|k: Seq<char>| #[trigger] qt.contains_key(k) implies qt[k].runs_view() < n + 1 by {
                if k != name {
                    assert(pt.contains_key(k));
                }
            }
        } else if is_del(raw) {
            assert forall|k: Seq<char>| #[trigger] qc.contains_key(k) implies qc[k].runs_view() < n + 1 by {
                assert(pc.contains_key(k));
            }
            assert forall|k: Seq<char>| #[trigger] qt.contains_key(k) implies qt[k].runs_view() < n + 1 by {
                assert(pt.contains_key(k));
            }
        }
    } else {
        pre.lemma_lookup(ws[0]);
        match pre.command_key(ws[0]) {
            Some(key) => {
                assert forall|k: Seq<char>| #[trigger] qc.contains_key(k) implies qc[k].runs_view() < n + 1 by {
                    if k != key {
                        assert(pc.contains_key(k));
                    }
                }
            },
            None => match first_match(ws, pre.trigger_words()) {
                None => {},
                Some(i) => {
                    lemma_first_match_found(ws, pre.trigger_words());
                    pre.lemma_lookup(ws[i]);
                    let key = pre.trigger_key(ws[i]).unwrap();
                    assert forall|k: Seq<char>| #[trigger] qt.contains_key(k) implies qt[k].runs_view() < n + 1 by {
                        if k != key {
                            assert(pt.contains_key(k));
                        }
                    }
                },
            },
        }
    }
}

/// A moderator's delete line removes the entry it names: the third word of
/// `!commands del ..`, the second of `-..`. A command of that name is removed
/// (and answered `Command <name> successfully removed`); else a trigger of
/// that name is removed (`Trigger <name> successfully removed`); else
/// nothing changes and the answer is `NotRegistered`.
pub proof fn law_delete_removes_entry(
    pre: CommandMap,
    post: CommandMap,
    message: Message,
    r: Result<Option<Seq<char>>, BotErrorView>,
    t: Seq<char>,
)
    requires
        try_run_effect(pre, post, message, r),
        sender_perms(message).rank() >= 2,
        ("!commands del"@.is_prefix_of(message.raw@) && message.words@.len() > 2
            && t == message.words.deep_view()[2]) || (begins_with_char(message.raw@, '-')
            && message.words@.len() > 1 && t == message.words.deep_view()[1]),
    ensures
        pre.commands_view().contains_key(t) ==> {
            &&& post.commands_view() == pre.commands_view().remove(t)
            &&& post.triggers_view() == pre.triggers_view()
            &&& r == Ok::<Option<Seq<char>>, BotErrorView>(
                Some("Command "@ + t + " successfully removed"@),
            )
        },
        !pre.commands_view().contains_key(t) && pre.triggers_view().contains_key(t) ==> {
            &&& post.triggers_view() == pre.triggers_view().remove(t)
            &&& post.commands_view() == pre.commands_view()
            &&& r == Ok::<Option<Seq<char>>, BotErrorView>(
                Some("Trigger "@ + t + " successfully removed"@),
            )
        },
        !pre.commands_view().contains_key(t) && !pre.triggers_view().contains_key(t) ==> {
            &&& post.commands_view() == pre.commands_view()
            &&& post.triggers_view() == pre.triggers_view()
            &&& r == Err::<Option<Seq<char>>, BotErrorView>(
                BotErrorView::Command(CommandError::NotRegistered),
            )
        },
{
    let raw = message.raw@;
    reveal_strlit("!commands del");
    reveal_strlit("!commands add");
    if "!commands del"@.is_prefix_of(raw) {
        assert(raw.subrange(0, 13)[10] == 'd');
        assert(raw.subrange(0, 13)[0] == '!');
        assert(raw[10] == 'd' && raw[0] == '!');
    }
    if "!commands add"@.is_prefix_of(raw) {
        assert(raw.subrange(0, 13)[0] == '!' && raw.subrange(0, 13)[10] == 'a');
        assert(raw[0] == '!' && raw[10] == 'a');
    }
    assert(!is_add(raw));
    assert(is_del(raw));
}

/// The position that `first_match` gives holds one of the keys.
proof fn lemma_first_match_found(ws: Seq<Seq<char>>, keys: Set<Seq<char>>)
    ensures
        first_match(ws, keys) matches Some(i) ==> 0 <= i < ws.len() && keys.contains(ws[i]),
    decreases ws.len(),
{
    if ws.len() > 0 {
        lemma_first_match_found(ws.drop_last(), keys);
    }
}

/// Deleting a command that was just added removes it again: the commands
/// are those from before without that name (an older command of the same
/// name is gone too), and the triggers are untouched.
pub proof fn law_add_then_delete(
    pre: CommandMap,
    mid: CommandMap,
    post: CommandMap,
    add: Message,
    del: Message,
    r1: Result<Option<Seq<char>>, BotErrorView>,
    r2: Result<Option<Seq<char>>, BotErrorView>,
)
    requires
        try_run_effect(pre, mid, add, r1),
        sender_perms(add).rank() >= 2,
        is_add(add.raw@),
        added_settings(add.raw@).priority is None,
        !pre.triggers_view().contains_key(added_name(add.raw@)),
        try_run_effect(mid, post, del, r2),
        sender_perms(del).rank() >= 2,
        !is_add(del.raw@),
        is_del(del.raw@),
        del.words@.len() > del_index(del.raw@),
        del.words.deep_view()[del_index(del.raw@)] == added_name(add.raw@),
    ensures
        post.commands_view() == pre.commands_view().remove(added_name(add.raw@)),
        post.triggers_view() == pre.triggers_view(),
        r2 == confirm("Command "@, added_name(add.raw@), " successfully removed"@),
{
    let name = added_name(add.raw@);
    assert(mid.commands_view().contains_key(name));
    assert(post.commands_view() =~= pre.commands_view().remove(name));
}

/// A command answers right after it is added: its first run, by a sender
/// whose level reaches the command's, with a first word that is its name (or
/// the name in another letter case, for a command that does not tell cases
/// apart, when no other command answers to that word), answers what the add
/// line's action gives for a first run, and counts one run.
pub proof fn law_add_then_run(
    pre: CommandMap,
    mid: CommandMap,
    post: CommandMap,
    add: Message,
    run: Message,
    r1: Result<Option<Seq<char>>, BotErrorView>,
    r2: Result<Option<Seq<char>>, BotErrorView>,
)
    requires
        try_run_effect(pre, mid, add, r1),
        sender_perms(add).rank() >= 2,
        is_add(add.raw@),
        added_settings(add.raw@).priority is None,
        !pre.triggers_view().contains_key(added_name(add.raw@)),
        try_run_effect(mid, post, run, r2),
        !manages(run),
        run.words@.len() >= 1,
        run.words.deep_view()[0] == added_name(add.raw@) || (!added_settings(
            add.raw@,
        ).case_sensitive && lowered(run.words.deep_view()[0]) == lowered(added_name(add.raw@))),
        forall|k: Seq<char>| #[trigger]
            pre.commands_view().contains_key(k) && k != added_name(add.raw@) ==> !answers_to(
                k,
                pre.commands_view()[k],
                run.words.deep_view()[0],
            ),
        sender_perms(run).rank() >= added_settings(add.raw@).perms.rank(),
    ensures
        r2 == added_action(add.raw@).outcome(1, run.sender.name_view(), run.words.deep_view()),
        post.commands_view().contains_key(added_name(add.raw@)),
        post.commands_view()[added_name(add.raw@)].runs_view() == 1,
        post.triggers_view() == pre.triggers_view(),
{
    let name = added_name(add.raw@);
    let w = run.words.deep_view()[0];
    let mc = mid.commands_view();
    assert(mc.contains_key(name));
    assert(answers_to(name, mc[name], w));
    mid.lemma_lookup(w);
    match mid.command_key(w) {
        Some(k) => {
            if k != name {
                assert(pre.commands_view().contains_key(k));
                assert(mc[k] == pre.commands_view()[k]);
            }
            assert(k == name);
        },
        None => {
            assert(!answers_to(name, mc[name], w));
        },
    }
}

} // verus!
