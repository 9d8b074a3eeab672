//! A command of the bot, and the `!commands add` line that makes one.
use crate::gotw::bot::Message;
use crate::gotw::command::CommandError;
use crate::gotw::format::{render, FormatArgs};
use crate::gotw::user::User;
use crate::gotw::{reply_view, BotErrorView, BotResult};
use crate::text::{
    append_chars, ascii_lowercase, begins_with_char, chars_eq_str, chars_of, contains_str,
    find_char, index_of, join_from, join_spec, lower_char, occurs_in,
    parse_unsigned, parse_unsigned_spec, push_char, split, split_spec, starts_with_str,
};
use std::time::Instant;
use vstd::prelude::*;

verus! {

/// A point in time (`std::time::Instant`), opaque here.
#[verifier::external_type_specification]
#[verifier::external_body]
pub struct ExInstant(Instant);

/// The current time (`Instant::now`). Nothing is stated of it: it is read
/// from the clock.
#[verifier::external_body]
fn instant_now() -> Instant {
    Instant::now()
}

/// The time that has passed since `t` (`Instant::elapsed`). Nothing is
/// stated of it: it is read from the clock.
#[verifier::external_body]
fn instant_elapsed(t: &Instant) -> core::time::Duration {
    t.elapsed()
}

/// The whole milliseconds of a duration (`Duration::as_millis`). Nothing is
/// stated of it: the durations here come from the clock.
#[verifier::external_body]
fn duration_as_millis(d: &core::time::Duration) -> u128 {
    d.as_millis()
}

/// Who may run a command, from least to most privileged.
#[derive(PartialEq, Eq, PartialOrd, Clone, Copy, Debug, Structural)]
pub enum CommandPerms {
    Anyone,
    Vip,
    Mod,
    Broadcaster,
}

/// Whether `badges` lists `pat` (`str::contains`).
pub open spec fn tag_contains(tags: Map<Seq<char>, Seq<char>>, key: Seq<char>, pat: Seq<char>) -> bool {
    tags.contains_key(key) && occurs_in(pat, tags[key])
}

impl CommandPerms {
    /// The place of the level in the order `Anyone < Vip < Mod < Broadcaster`.
    pub open spec fn rank(self) -> nat {
        match self {
            CommandPerms::Anyone => 0,
            CommandPerms::Vip => 1,
            CommandPerms::Mod => 2,
            CommandPerms::Broadcaster => 3,
        }
    }

    /// Whether this level reaches `other` (`self >= other`).
    pub fn at_least(&self, other: &CommandPerms) -> (r: bool)
        ensures
            r == (self.rank() >= other.rank()),
    {
        self.rank_of() >= other.rank_of()
    }

    fn rank_of(&self) -> (r: u8)
        ensures
            r == self.rank(),
    {
        match self {
            CommandPerms::Anyone => 0,
            CommandPerms::Vip => 1,
            CommandPerms::Mod => 2,
            CommandPerms::Broadcaster => 3,
        }
    }

    /// The highest level that a user with these tags holds: the broadcaster
    /// badge, then the `mod` tag set to `1`, then the vip badge.
    pub open spec fn max_spec(tags: Map<Seq<char>, Seq<char>>) -> CommandPerms {
        if tag_contains(tags, "badges"@, "broadcaster"@) {
            CommandPerms::Broadcaster
        } else if tags.contains_key("mod"@) && tags["mod"@] == "1"@ {
            CommandPerms::Mod
        } else if tag_contains(tags, "badges"@, "vip"@) {
            CommandPerms::Vip
        } else {
            CommandPerms::Anyone
        }
    }

    /// The highest level that `user` holds.
    pub fn max(user: &User) -> (r: Self)
        ensures
            r == Self::max_spec(user.tags_view()),
    {
        let broadcaster = match user.tag("badges") {
            Some(b) => {
                let bc = chars_of(b.as_str());
                contains_str(bc.as_slice(), "broadcaster")
            },
            None => false,
        };
        if broadcaster {
            return CommandPerms::Broadcaster;
        }
        let moderator = match user.tag("mod") {
            Some(m) => {
                let mc = chars_of(m.as_str());
                chars_eq_str(mc.as_slice(), "1")
            },
            None => false,
        };
        if moderator {
            return CommandPerms::Mod;
        }
        let vip = match user.tag("badges") {
            Some(b) => {
                let bc = chars_of(b.as_str());
                contains_str(bc.as_slice(), "vip")
            },
            None => false,
        };
        if vip {
            CommandPerms::Vip
        } else {
            CommandPerms::Anyone
        }
    }
}

/// What a command answers with.
#[derive(Clone, Debug)]
pub enum CommandAction {
    Static { ret: String },
    Template { template: String },
    Script { command: String, file: String },
}

/// What contracts see of an action.
pub enum ActionView {
    Static(Seq<char>),
    Template(Seq<char>),
    Script(Seq<char>, Seq<char>),
}

impl View for CommandAction {
    type V = ActionView;

    open spec fn view(&self) -> ActionView {
        match self {
            CommandAction::Static { ret } => ActionView::Static(ret@),
            CommandAction::Template { template } => ActionView::Template(template@),
            CommandAction::Script { command, file } => ActionView::Script(command@, file@),
        }
    }
}

impl ActionView {
    /// The answer of the action for the given run count, sender and words:
    /// the fixed text, the rendered template (an error when the template
    /// refers to a word that is missing), or an empty text for a script.
    pub open spec fn outcome(self, count: nat, sender: Seq<char>, words: Seq<Seq<char>>) -> Result<
        Option<Seq<char>>,
        BotErrorView,
    > {
        match self {
            ActionView::Static(ret) => Ok(Some(ret)),
            ActionView::Template(t) => match render(t, count, sender, words) {
                Some(text) => Ok(Some(text)),
                None => Err(BotErrorView::Command(CommandError::NotEnoughArgs)),
            },
            ActionView::Script(_, _) => Ok(Some(Seq::<char>::empty())),
        }
    }
}

impl CommandAction {
    fn run(&self, args: FormatArgs) -> (r: BotResult<Option<String>>)
        ensures
            reply_view(r) == self@.outcome(args.count_view(), args.sender_view(), args.args_view()),
    {
        match self {
            CommandAction::Static { ret } => Ok(Some(ret.clone())),
            CommandAction::Template { template } => match crate::gotw::format::format(template.as_str(), args) {
                Ok(r) => Ok(Some(r)),
                Err(e) => Err(e),
            },
            CommandAction::Script { .. } => Ok(Some(String::new())),
        }
    }
}

/// What makes a command a trigger: a word that answers wherever it stands
/// in a message.
#[derive(Clone, Debug, PartialEq, Eq, PartialOrd, Ord, Structural)]
pub struct TriggerInfo {
    pub priority: usize,
}

/// A command of the bot.
#[derive(Clone, Debug)]
pub struct Command {
    /// When the command last answered; `None` before its first answer.
    timer: Option<Instant>,
    cooldown_ms: u64,
    perms: CommandPerms,
    case: bool,
    trigger: Option<TriggerInfo>,
    action: CommandAction,
    runs: usize,
}

impl Command {
    pub closed spec fn perms_view(&self) -> CommandPerms {
        self.perms
    }

    pub closed spec fn case_view(&self) -> bool {
        self.case
    }

    pub closed spec fn trigger_view(&self) -> Option<TriggerInfo> {
        self.trigger
    }

    pub closed spec fn action_view(&self) -> ActionView {
        self.action@
    }

    pub closed spec fn runs_view(&self) -> nat {
        self.runs as nat
    }

    pub closed spec fn cooldown_view(&self) -> nat {
        self.cooldown_ms as nat
    }

    /// Whether the command has answered before.
    pub closed spec fn has_replied(&self) -> bool {
        self.timer is Some
    }

    /// When the command last answered, if it has.
    pub closed spec fn last_reply(&self) -> Option<Instant> {
        self.timer
    }

    /// `self` is `before` after one more run: the count went up by one and
    /// the settings and the action are unchanged.
    pub open spec fn ran_from(self, before: Command) -> bool {
        &&& self.runs_view() == before.runs_view() + 1
        &&& self.perms_view() == before.perms_view()
        &&& self.case_view() == before.case_view()
        &&& self.trigger_view() == before.trigger_view()
        &&& self.action_view() == before.action_view()
        &&& self.cooldown_view() == before.cooldown_view()
    }

    /// The answer of the command to `message` once it has run `count` times.
    pub open spec fn outcome(self, count: nat, message: Message) -> Result<
        Option<Seq<char>>,
        BotErrorView,
    > {
        self.action_view().outcome(count, message.sender.name_view(), message.words.deep_view())
    }

    /// What one run of `before`, leaving `after`, may answer (`r`): either
    /// the command was cooling down (it has answered before, it has a
    /// cooldown, and the cooldown since that answer had not passed), so it
    /// answers nothing and keeps the time of its last answer; or it answers
    /// what its action gives for the new run count, and notes the time of
    /// this answer. Which of the two holds depends on the clock.
    pub open spec fn run_answer(
        before: Command,
        after: Command,
        message: Message,
        r: Result<Option<Seq<char>>, BotErrorView>,
    ) -> bool {
        ||| {
            &&& r == Ok::<Option<Seq<char>>, BotErrorView>(None)
            &&& before.has_replied()
            &&& before.cooldown_view() > 0
            &&& after.last_reply() == before.last_reply()
        }
        ||| {
            &&& r == before.outcome(before.runs_view() + 1, message)
            &&& after.has_replied()
        }
    }

    /// A command without cooldown, or one that has not answered yet, gives
    /// its action's answer on every run: only an answer given before, with a
    /// cooldown set, can make it answer nothing.
    pub proof fn law_uncooled_run_answers(
        before: Command,
        after: Command,
        message: Message,
        r: Result<Option<Seq<char>>, BotErrorView>,
    )
        requires
            Command::run_answer(before, after, message, r),
            before.cooldown_view() == 0 || !before.has_replied(),
        ensures
            r == before.outcome(before.runs_view() + 1, message),
            after.has_replied(),
    {
    }

    /// Whether the command is cooling down when `elapsed_ms` whole
    /// milliseconds have passed since its last answer (`None`: it has not
    /// answered yet): only then, and only while fewer than its cooldown have
    /// passed.
    pub open spec fn cooling(self, elapsed_ms: Option<u128>) -> bool {
        elapsed_ms matches Some(ms) && ms < self.cooldown_view()
    }

    /// Runs the command: counts the run, and answers unless the cooldown
    /// since its last answer has not passed (then it answers nothing). A
    /// command without cooldown, or one that has not answered yet, always
    /// answers; an answer notes its time, from which the next cooldown runs.
    /// This is `run_after` with the milliseconds that the clock reports since
    /// the last answer.
    pub fn run(&mut self, message: Message) -> (r: BotResult<Option<String>>)
        requires
            old(self).runs_view() < usize::MAX,
        ensures
            final(self).ran_from(*old(self)),
            Command::run_answer(*old(self), *final(self), message, reply_view(r)),
    {
        let elapsed = self.elapsed_since_reply();
        self.run_after(elapsed, message)
    }

    /// Runs the command when `elapsed_ms` whole milliseconds have passed
    /// since its last answer (`None` when it has not answered): counts the
    /// run; while cooling (see `cooling`) it answers nothing and keeps the
    /// time of its last answer, else it answers what its action gives for
    /// the new run count and notes the time of this answer.
    pub fn run_after(&mut self, elapsed_ms: Option<u128>, message: Message) -> (r: BotResult<
        Option<String>,
    >)
        requires
            old(self).runs_view() < usize::MAX,
        ensures
            final(self).ran_from(*old(self)),
            reply_view(r) == if old(self).cooling(elapsed_ms) {
                Ok::<Option<Seq<char>>, BotErrorView>(None)
            } else {
                old(self).outcome(old(self).runs_view() + 1, message)
            },
            old(self).cooling(elapsed_ms) ==> final(self).last_reply() == old(self).last_reply(),
            !old(self).cooling(elapsed_ms) ==> final(self).has_replied(),
    {
        self.runs = self.runs + 1;
        let cooling = match elapsed_ms {
            None => false,
            Some(ms) => self.cooling_after(ms),
        };
        if !cooling {
            self.timer = Some(instant_now());
        }
        self.respond(cooling, message)
    }

    /// Whether the cooldown has not passed yet when `elapsed_ms` whole
    /// milliseconds have passed since the last answer.
    pub fn cooling_after(&self, elapsed_ms: u128) -> (r: bool)
        ensures
            r == (elapsed_ms < self.cooldown_view()),
    {
        elapsed_ms < self.cooldown_ms as u128
    }

    /// The whole milliseconds that the clock reports since the last answer,
    /// or `None` when the command has not answered. Of the number nothing is
    /// known here: it is read from the clock.
    fn elapsed_since_reply(&self) -> (r: Option<u128>)
        ensures
            r is Some <==> self.has_replied(),
    {
        match &self.timer {
            None => None,
            Some(t) => {
                let d = instant_elapsed(t);
                Some(duration_as_millis(&d))
            },
        }
    }

    /// The answer to `message`, given whether the command is cooling down:
    /// nothing while it is, else what its action gives for its run count.
    pub fn respond(&self, on_cooldown: bool, message: Message) -> (r: BotResult<Option<String>>)
        ensures
            reply_view(r) == if on_cooldown {
                Ok::<Option<Seq<char>>, BotErrorView>(None)
            } else {
                self.outcome(self.runs_view(), message)
            },
    {
        if on_cooldown {
            Ok(None)
        } else {
            let args = FormatArgs::new(self.runs, message.sender.username().as_str(), message.words);
            self.action.run(args)
        }
    }

    /// Whether the command tells letter cases apart in its name.
    pub fn is_case_sensitive(&self) -> (r: bool)
        ensures
            r == self.case_view(),
    {
        self.case
    }

    /// Whether the command is a trigger.
    pub fn is_trigger(&self) -> (r: bool)
        ensures
            r == self.trigger_view() is Some,
    {
        self.trigger.is_some()
    }

    /// Who may run the command.
    pub fn perms(&self) -> (r: CommandPerms)
        ensures
            r == self.perms_view(),
    {
        self.perms
    }

    /// Whether the run counter can count one more run.
    pub fn can_count_run(&self) -> (r: bool)
        ensures
            r == (self.runs_view() < usize::MAX),
    {
        self.runs < usize::MAX
    }
}

/// The settings that the switches of `!commands add` choose.
#[derive(Clone, Copy, Debug, PartialEq, Eq, Structural)]
pub struct Settings {
    pub case_sensitive: bool,
    pub perms: CommandPerms,
    /// `0` for a fixed reply, `1` for a template, `2` for a script.
    pub kind: u8,
    pub cooldown_ms: u64,
    pub priority: Option<usize>,
}

/// The settings before any switch: case-sensitive, open to anyone, no
/// cooldown, no trigger, and a template exactly when the line holds `${`.
pub open spec fn initial_settings(line: Seq<char>) -> Settings {
    Settings {
        case_sensitive: true,
        perms: CommandPerms::Anyone,
        kind: if occurs_in("${"@, line) {
            1
        } else {
            0
        },
        cooldown_ms: 0,
        priority: None,
    }
}

/// The number after the first `=` of a switch, if it parses as a number no
/// larger than `max`.
pub open spec fn switch_number(l: Seq<char>, max: nat) -> Option<nat> {
    let i = index_of(l, '=');
    if i < l.len() {
        parse_unsigned_spec(l.skip(i as int + 1), max)
    } else {
        None
    }
}

/// The settings after one switch word, read in lower case; an unknown
/// switch, or a number that does not parse, changes nothing.
pub open spec fn apply_switch(st: Settings, w: Seq<char>) -> Settings {
    let l = w.map_values(|c: char| lower_char(c));
    if l == "-cs=true"@ {
        Settings { case_sensitive: true, ..st }
    } else if l == "-cs=false"@ {
        Settings { case_sensitive: false, ..st }
    } else if l == "-p=mod"@ {
        Settings { perms: CommandPerms::Mod, ..st }
    } else if l == "-p=anyone"@ {
        Settings { perms: CommandPerms::Anyone, ..st }
    } else if l == "-p=vip"@ {
        Settings { perms: CommandPerms::Vip, ..st }
    } else if l == "-p=broadcaster"@ {
        Settings { perms: CommandPerms::Broadcaster, ..st }
    } else if l == "-t=static"@ {
        Settings { kind: 0, ..st }
    } else if l == "-t=sub"@ {
        Settings { kind: 1, ..st }
    } else if l == "-t=js"@ {
        Settings { kind: 2, ..st }
    } else if "-cd="@.is_prefix_of(l) {
        match switch_number(l, u64::MAX as nat) {
            Some(n) => Settings { cooldown_ms: n as u64, ..st },
            None => st,
        }
    } else if "-k="@.is_prefix_of(l) {
        match switch_number(l, usize::MAX as nat) {
            Some(n) => Settings { priority: Some(n as usize), ..st },
            None => st,
        }
    } else {
        st
    }
}

/// The settings after the switch words, applied from first to last.
pub open spec fn apply_switches(st: Settings, ws: Seq<Seq<char>>) -> Settings
    decreases ws.len(),
{
    if ws.len() == 0 {
        st
    } else {
        apply_switch(apply_switches(st, ws.drop_last()), ws.last())
    }
}

/// The position of the first word that is not a switch (does not begin with
/// `-`), or the number of words when all are switches.
pub open spec fn first_plain(ws: Seq<Seq<char>>) -> nat
    decreases ws.len(),
{
    if ws.len() == 0 {
        0
    } else if !begins_with_char(ws[0], '-') {
        0
    } else {
        1 + first_plain(ws.drop_first())
    }
}

/// How many words open an add line: one for the `+` alias, two for
/// `!commands add`.
pub open spec fn add_prefix_len(line: Seq<char>) -> nat {
    if begins_with_char(line, '+') {
        1
    } else {
        2
    }
}

/// The words of an add line after the words that open it.
pub open spec fn add_words(line: Seq<char>) -> Seq<Seq<char>> {
    let ps = split_spec(line, ' ');
    let n = add_prefix_len(line);
    if ps.len() >= n {
        ps.skip(n as int)
    } else {
        Seq::<Seq<char>>::empty()
    }
}

/// The name that an add line gives: its first word that is not a switch,
/// or empty when there is none.
pub open spec fn added_name(line: Seq<char>) -> Seq<char> {
    let ws = add_words(line);
    let k = first_plain(ws);
    if k < ws.len() {
        ws[k as int]
    } else {
        Seq::<char>::empty()
    }
}

/// The reply text that an add line gives: the words after the name, joined
/// by single spaces.
pub open spec fn added_reply(line: Seq<char>) -> Seq<char> {
    let ws = add_words(line);
    let k = first_plain(ws);
    if k < ws.len() {
        join_spec(ws.skip(k as int + 1), ' ')
    } else {
        Seq::<char>::empty()
    }
}

/// The settings that an add line gives: its switches, in order.
pub open spec fn added_settings(line: Seq<char>) -> Settings {
    let ws = add_words(line);
    apply_switches(initial_settings(line), ws.take(first_plain(ws) as int))
}

/// The action that an add line gives.
pub open spec fn added_action(line: Seq<char>) -> ActionView {
    let st = added_settings(line);
    if st.kind == 0 {
        ActionView::Static(added_reply(line))
    } else if st.kind == 1 {
        ActionView::Template(added_reply(line))
    } else {
        ActionView::Script("node"@, "./commands/"@ + added_name(line) + ".js"@)
    }
}

/// `c` is the command that the add line `line` describes, before its first
/// run.
pub open spec fn made_from(c: Command, line: Seq<char>) -> bool {
    let st = added_settings(line);
    &&& c.perms_view() == st.perms
    &&& c.case_view() == st.case_sensitive
    &&& c.cooldown_view() == st.cooldown_ms
    &&& c.trigger_view() == (match st.priority {
        Some(p) => Some(TriggerInfo { priority: p }),
        None => None,
    })
    &&& c.action_view() == added_action(line)
    &&& c.runs_view() == 0
    &&& !c.has_replied()
}

/// A command read from an add line, with its name.
pub struct NewCommand {
    pub name: String,
    pub cmd: Command,
}

proof fn lemma_first_plain(ws: Seq<Seq<char>>, k: int)
    requires
        0 <= k <= ws.len(),
        forall|j: int| 0 <= j < k ==> begins_with_char(#[trigger] ws[j], '-'),
        k == ws.len() || !begins_with_char(ws[k], '-'),
    ensures
        first_plain(ws) == k,
    decreases k,
{
    if k > 0 {
        let t = ws.drop_first();
        assert forall|j: int| 0 <= j < k - 1 implies begins_with_char(#[trigger] t[j], '-') by {
            assert(t[j] == ws[j + 1]);
        }
        if k < ws.len() {
            assert(t[k - 1] == ws[k]);
        }
        lemma_first_plain(t, k - 1);
    }
}

/// The number after the first `=` of `l`.
fn switch_number_exec(l: &[char], max: u64) -> (r: Option<u64>)
    ensures
        match switch_number(l@, max as nat) {
            Some(n) => r == Some(n as u64),
            None => r is None,
        },
{
    let i = find_char(l, 0, '=');
    assert(l@.skip(0) =~= l@);
    if i < l.len() {
        parse_unsigned(l, i + 1, max)
    } else {
        None
    }
}

/// The settings after the switch word `w`.
fn apply_switch_exec(st: Settings, w: &Vec<char>) -> (r: Settings)
    ensures
        r == apply_switch(st, w@),
{
    let l = ascii_lowercase(w.as_slice());
    let l = l.as_slice();
    if chars_eq_str(l, "-cs=true") {
        Settings { case_sensitive: true, ..st }
    } else if chars_eq_str(l, "-cs=false") {
        Settings { case_sensitive: false, ..st }
    } else if chars_eq_str(l, "-p=mod") {
        Settings { perms: CommandPerms::Mod, ..st }
    } else if chars_eq_str(l, "-p=anyone") {
        Settings { perms: CommandPerms::Anyone, ..st }
    } else if chars_eq_str(l, "-p=vip") {
        Settings { perms: CommandPerms::Vip, ..st }
    } else if chars_eq_str(l, "-p=broadcaster") {
        Settings { perms: CommandPerms::Broadcaster, ..st }
    } else if chars_eq_str(l, "-t=static") {
        Settings { kind: 0, ..st }
    } else if chars_eq_str(l, "-t=sub") {
        Settings { kind: 1, ..st }
    } else if chars_eq_str(l, "-t=js") {
        Settings { kind: 2, ..st }
    } else if starts_with_str(l, "-cd=") {
        match switch_number_exec(l, u64::MAX) {
            Some(n) => Settings { cooldown_ms: n, ..st },
            None => st,
        }
    } else if starts_with_str(l, "-k=") {
        match switch_number_exec(l, usize::MAX as u64) {
            Some(n) => Settings { priority: Some(n as usize), ..st },
            None => st,
        }
    } else {
        st
    }
}

impl NewCommand {
    /// Reads an add line such as `!commands add -k=1 -cd=10000 gl Thanks!` or
    /// `+ -k=1 gl Thanks!`: the words that open it are skipped, the switches
    /// that follow are applied in order (so the last value of a switch
    /// counts), the next word is the name, and the words after it, joined by
    /// single spaces, are the reply.
    pub fn parse(s: &str) -> (r: NewCommand)
        ensures
            r.name@ == added_name(s@),
            made_from(r.cmd, s@),
    {
        let v = chars_of(s);
        let templated = contains_str(v.as_slice(), "${");
        let mut st = Settings {
            case_sensitive: true,
            perms: CommandPerms::Anyone,
            kind: if templated {
                1
            } else {
                0
            },
            cooldown_ms: 0,
            priority: None,
        };
        let pieces = split(v.as_slice(), ' ');
        let skip: usize = if v.len() > 0 && v[0] == '+' {
            1
        } else {
            2
        };
        let ghost ps = split_spec(v@, ' ');
        let ghost ws = add_words(v@);
        assert(skip == add_prefix_len(v@));
        let mut name = String::new();
        let mut reply = String::new();
        if pieces.len() >= skip {
            let mut i: usize = skip;
            let mut found = false;
            while i < pieces.len()
                invariant_except_break
                    pieces.deep_view() == ps,
                    ps.len() >= skip,
                    ws == ps.skip(skip as int),
                    skip <= i <= ps.len(),
                    !found,
                    forall|j: int| 0 <= j < i - skip ==> begins_with_char(#[trigger] ws[j], '-'),
                    st == apply_switches(initial_settings(v@), ws.take(i - skip)),
                ensures
                    pieces.deep_view() == ps,
                    ws == ps.skip(skip as int),
                    skip <= i <= ps.len(),
                    found ==> i < ps.len() && !begins_with_char(ws[i - skip], '-'),
                    !found ==> i == ps.len(),
                    forall|j: int| 0 <= j < i - skip ==> begins_with_char(#[trigger] ws[j], '-'),
                    st == apply_switches(initial_settings(v@), ws.take(i - skip)),
                decreases pieces.len() - i,
            {
                let w = chars_of(pieces[i].as_str());
                assert(w@ == ws[i - skip]);
                if !(w.len() > 0 && w[0] == '-') {
                    found = true;
                    break;
                }
                assert(ws.take(i - skip + 1).drop_last() =~= ws.take(i - skip));
                st = apply_switch_exec(st, &w);
                i = i + 1;
            }
            proof {
                lemma_first_plain(ws, i - skip);
            }
            if found {
                name = pieces[i].clone();
                reply = join_from(&pieces, i + 1, ' ');
                assert(ps.skip(i + 1) =~= ws.skip(i - skip + 1));
            }
        } else {
            proof {
                lemma_first_plain(ws, 0);
            }
        }
        let action = if st.kind == 0 {
            CommandAction::Static { ret: reply }
        } else if st.kind == 1 {
            CommandAction::Template { template: reply }
        } else {
            let mut file = "./commands/".to_owned();
            let nc = chars_of(name.as_str());
            append_chars(&mut file, nc.as_slice());
            let ext = chars_of(".js");
            append_chars(&mut file, ext.as_slice());
            CommandAction::Script { command: "node".to_owned(), file }
        };
        let trigger = match st.priority {
            Some(p) => Some(TriggerInfo { priority: p }),
            None => None,
        };
        let cmd = Command {
            timer: None,
            cooldown_ms: st.cooldown_ms,
            perms: st.perms,
            case: st.case_sensitive,
            trigger,
            action,
            runs: 0,
        };
        NewCommand { name, cmd }
    }
}

impl core::str::FromStr for NewCommand {
    type Err = core::convert::Infallible;

    fn from_str(s: &str) -> (r: Result<Self, Self::Err>)
        ensures
            r matches Ok(nc) && nc.name@ == added_name(s@) && made_from(nc.cmd, s@),
    {
        Ok(NewCommand::parse(s))
    }
}

/// The word `w` in lower case.
pub open spec fn lowered(w: Seq<char>) -> Seq<char> {
    w.map_values(|c: char| lower_char(c))
}

/// Whether the lower-cased word is one of the switches spelled out in full.
pub open spec fn is_named_switch(l: Seq<char>) -> bool {
    l == "-cs=true"@ || l == "-cs=false"@ || l == "-p=mod"@ || l == "-p=anyone"@ || l == "-p=vip"@
        || l == "-p=broadcaster"@ || l == "-t=static"@ || l == "-t=sub"@ || l == "-t=js"@
}

/// The case sensitivity that the switch word sets, if it sets one.
pub open spec fn switch_case(w: Seq<char>) -> Option<bool> {
    let l = lowered(w);
    if l == "-cs=true"@ {
        Some(true)
    } else if l == "-cs=false"@ {
        Some(false)
    } else {
        None
    }
}

/// The level that the switch word sets, if it sets one.
pub open spec fn switch_perms(w: Seq<char>) -> Option<CommandPerms> {
    let l = lowered(w);
    if l == "-cs=true"@ || l == "-cs=false"@ {
        None
    } else if l == "-p=mod"@ {
        Some(CommandPerms::Mod)
    } else if l == "-p=anyone"@ {
        Some(CommandPerms::Anyone)
    } else if l == "-p=vip"@ {
        Some(CommandPerms::Vip)
    } else if l == "-p=broadcaster"@ {
        Some(CommandPerms::Broadcaster)
    } else {
        None
    }
}

/// The kind of reply that the switch word sets, if it sets one.
pub open spec fn switch_kind(w: Seq<char>) -> Option<u8> {
    let l = lowered(w);
    if l == "-cs=true"@ || l == "-cs=false"@ || l == "-p=mod"@ || l == "-p=anyone"@ || l
        == "-p=vip"@ || l == "-p=broadcaster"@ {
        None
    } else if l == "-t=static"@ {
        Some(0u8)
    } else if l == "-t=sub"@ {
        Some(1u8)
    } else if l == "-t=js"@ {
        Some(2u8)
    } else {
        None
    }
}

/// The cooldown that the switch word sets, if it sets one.
pub open spec fn switch_cooldown(w: Seq<char>) -> Option<nat> {
    let l = lowered(w);
    if !is_named_switch(l) && "-cd="@.is_prefix_of(l) {
        switch_number(l, u64::MAX as nat)
    } else {
        None
    }
}

/// The trigger priority that the switch word sets, if it sets one.
pub open spec fn switch_priority(w: Seq<char>) -> Option<nat> {
    let l = lowered(w);
    if !is_named_switch(l) && !"-cd="@.is_prefix_of(l) && "-k="@.is_prefix_of(l) {
        switch_number(l, usize::MAX as nat)
    } else {
        None
    }
}

/// The value of a setting after the words: the value that the last word
/// setting it gives, or `default` when no word sets it.
pub open spec fn last_set<T>(ws: Seq<Seq<char>>, f: spec_fn(Seq<char>) -> Option<T>, default: T) -> T
    decreases ws.len(),
{
    if ws.len() == 0 {
        default
    } else {
        match f(ws.last()) {
            Some(v) => v,
            None => last_set(ws.drop_last(), f, default),
        }
    }
}

/// A switch may be given several times: for each setting, the last switch
/// that sets it decides its value, and a setting that no switch sets keeps
/// its value from before.
pub proof fn law_last_switch_wins(st: Settings, ws: Seq<Seq<char>>)
    ensures
        apply_switches(st, ws).case_sensitive == last_set(
            ws,
            |w: Seq<char>| switch_case(w),
            st.case_sensitive,
        ),
        apply_switches(st, ws).perms == last_set(ws, |w: Seq<char>| switch_perms(w), st.perms),
        apply_switches(st, ws).kind == last_set(ws, |w: Seq<char>| switch_kind(w), st.kind),
        apply_switches(st, ws).cooldown_ms as nat == last_set(
            ws,
            |w: Seq<char>| switch_cooldown(w),
            st.cooldown_ms as nat,
        ),
        apply_switches(st, ws).priority == last_set(
            ws,
            |w: Seq<char>| match switch_priority(w) {
                Some(n) => Some(Some(n as usize)),
                None => None,
            },
            st.priority,
        ),
    decreases ws.len(),
{
    if ws.len() > 0 {
        law_last_switch_wins(st, ws.drop_last());
    }
}

/// The levels are ordered `Anyone < Vip < Mod < Broadcaster`, each strictly
/// above the one before, so a level reaches exactly itself and those below.
pub proof fn law_levels_ordered()
    ensures
        CommandPerms::Anyone.rank() < CommandPerms::Vip.rank(),
        CommandPerms::Vip.rank() < CommandPerms::Mod.rank(),
        CommandPerms::Mod.rank() < CommandPerms::Broadcaster.rank(),
{
}

/// A sender holds a level only by the tag that grants it: broadcaster exactly
/// when the `badges` tag contains `broadcaster`; moderator only with the
/// `mod` tag set to `1`; vip only when the `badges` tag contains `vip`; and
/// a sender whose tags grant none of these is `Anyone`.
pub proof fn law_levels_from_tags(tags: Map<Seq<char>, Seq<char>>)
    ensures
        (CommandPerms::max_spec(tags) == CommandPerms::Broadcaster) <==> (tags.contains_key(
            "badges"@,
        ) && occurs_in("broadcaster"@, tags["badges"@])),
        CommandPerms::max_spec(tags) == CommandPerms::Mod ==> tags.contains_key("mod"@)
            && tags["mod"@] == "1"@,
        CommandPerms::max_spec(tags) == CommandPerms::Vip ==> tags.contains_key("badges"@)
            && occurs_in("vip"@, tags["badges"@]),
        !(tags.contains_key("badges"@) && occurs_in("broadcaster"@, tags["badges"@]))
            && !(tags.contains_key("badges"@) && occurs_in("vip"@, tags["badges"@]))
            && !(tags.contains_key("mod"@) && tags["mod"@] == "1"@) ==> CommandPerms::max_spec(
            tags,
        ) == CommandPerms::Anyone,
{
}

/// Whether the switch word `w` chooses the kind of reply (`-t=..`).
pub open spec fn is_kind_switch(w: Seq<char>) -> bool {
    "-t="@.is_prefix_of(lowered(w))
}

/// Switches other than `-t=..` leave the kind of reply as it was.
proof fn lemma_kind_kept(st: Settings, ws: Seq<Seq<char>>)
    requires
        forall|j: int| 0 <= j < ws.len() ==> !is_kind_switch(#[trigger] ws[j]),
    ensures
        apply_switches(st, ws).kind == st.kind,
    decreases ws.len(),
{
    if ws.len() > 0 {
        let t = ws.drop_last();
        assert forall|j: int| 0 <= j < t.len() implies !is_kind_switch(#[trigger] t[j]) by {
            assert(t[j] == ws[j]);
        }
        lemma_kind_kept(st, t);
        let w = ws[ws.len() - 1];
        assert(!is_kind_switch(w));
        let l = w.map_values(|c: char| lower_char(c));
        assert(l =~= lowered(w));
        reveal_strlit("-t=");
        reveal_strlit("-t=static");
        reveal_strlit("-t=sub");
        reveal_strlit("-t=js");
        if l == "-t=static"@ || l == "-t=sub"@ || l == "-t=js"@ {
            assert("-t="@.is_prefix_of(l));
        }
    }
}

/// The kind of reply of an add line depends only on its `-t=..` switches and
/// on whether it holds `${`, not on whether it makes a trigger: a line that
/// holds `${` and has no `-t=..` switch gives a template, and one with
/// neither gives a fixed reply, both made of the words after the name.
pub proof fn law_reply_kind(line: Seq<char>)
    requires
        forall|j: int|
            0 <= j < first_plain(add_words(line)) ==> !is_kind_switch(#[trigger] add_words(line)[j]),
    ensures
        occurs_in("${"@, line) ==> added_action(line) == ActionView::Template(added_reply(line)),
        !occurs_in("${"@, line) ==> added_action(line) == ActionView::Static(added_reply(line)),
{
    let ws = add_words(line);
    let k = first_plain(ws);
    lemma_first_plain_bound(ws);
    let sw = ws.take(k as int);
    assert forall|j: int| 0 <= j < sw.len() implies !is_kind_switch(#[trigger] sw[j]) by {
        assert(sw[j] == ws[j]);
    }
    lemma_kind_kept(initial_settings(line), sw);
}

/// The position of the first plain word is within the words.
proof fn lemma_first_plain_bound(ws: Seq<Seq<char>>)
    ensures
        first_plain(ws) <= ws.len(),
    decreases ws.len(),
{
    if ws.len() > 0 {
        lemma_first_plain_bound(ws.drop_first());
    }
}

} // verus!
