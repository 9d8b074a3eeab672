//! The `${..}` templates of command replies.
use crate::gotw::command::CommandError;
use crate::gotw::{BotError, BotResult};
use crate::text::{
    append_chars, chars_eq_str, chars_of, decimal_spec, find_char, index_of, lemma_index_of_bound,
    occurs_in, parse_unsigned, parse_unsigned_spec, push_char, string_of, usize_to_string,
};
use vstd::prelude::*;

verus! {

/// What a template may refer to: how many times the command has run, who
/// sent the message, and the words of the message.
pub struct FormatArgs {
    count: usize,
    sender: String,
    command_args: Vec<String>,
}

impl FormatArgs {
    pub closed spec fn count_view(&self) -> nat {
        self.count as nat
    }

    pub closed spec fn sender_view(&self) -> Seq<char> {
        self.sender@
    }

    pub closed spec fn args_view(&self) -> Seq<Seq<char>> {
        self.command_args.deep_view()
    }

    pub fn new(count: usize, sender: &str, command_args: Vec<String>) -> (r: Self)
        ensures
            r.count_view() == count,
            r.sender_view() == sender@,
            r.args_view() == command_args.deep_view(),
    {
        FormatArgs { count, sender: sender.to_owned(), command_args }
    }
}

/// What `${var}` stands for: the run count for `count`, the sender for
/// `sender`, the word at that position for a number (no text when there is no
/// such word), and `${var}` itself for anything else.
pub open spec fn substitution(
    var: Seq<char>,
    count: nat,
    sender: Seq<char>,
    args: Seq<Seq<char>>,
) -> Option<Seq<char>> {
    if var == "count"@ {
        Some(decimal_spec(count))
    } else if var == "sender"@ {
        Some(sender)
    } else {
        match parse_unsigned_spec(var, usize::MAX as nat) {
            Some(n) => if n < args.len() {
                Some(args[n as int])
            } else {
                None
            },
            None => Some(seq!['$', '{'] + var + seq!['}']),
        }
    }
}

/// The text that a template renders to, or `None` when it refers to a word
/// that the message does not have. `${` opens a reference that runs to the
/// next `}` or to the end; every other character, a `$` that opens no
/// reference among them, stays as written.
pub open spec fn render(s: Seq<char>, count: nat, sender: Seq<char>, args: Seq<Seq<char>>) -> Option<
    Seq<char>,
>
    decreases s.len(),
{
    if s.len() == 0 {
        Some(Seq::<char>::empty())
    } else if s[0] == '$' && s.len() >= 2 && s[1] == '{' {
        let body = s.skip(2);
        let i = index_of(body, '}');
        let var = body.take(i as int);
        let rest = if i < body.len() {
            body.skip(i as int + 1)
        } else {
            Seq::<char>::empty()
        };
        match substitution(var, count, sender, args) {
            None => None,
            Some(t) => match render(rest, count, sender, args) {
                None => None,
                Some(r) => Some(t + r),
            },
        }
    } else {
        match render(s.skip(1), count, sender, args) {
            None => None,
            Some(r) => Some(seq![s[0]] + r),
        }
    }
}

/// `done` followed by what the rest renders to.
pub open spec fn after(done: Seq<char>, rest: Option<Seq<char>>) -> Option<Seq<char>> {
    match rest {
        None => None,
        Some(r) => Some(done + r),
    }
}

/// Where the text after the reference that starts at `start` begins: just
/// past the closing `}`, or the end when there is none.
pub open spec fn reference_end(v: Seq<char>, start: int) -> int {
    let body = v.skip(start);
    let k = index_of(body, '}');
    if k < body.len() {
        start + k + 1
    } else {
        v.len() as int
    }
}

/// Appends what the reference whose name starts at `v[start]` stands for,
/// and tells where the text after it begins.
fn render_reference(v: &Vec<char>, start: usize, args: &FormatArgs, ret: &mut String) -> (r: Option<
    usize,
>)
    requires
        start <= v@.len(),
    ensures
        match substitution(
            v@.skip(start as int).take(index_of(v@.skip(start as int), '}') as int),
            args.count_view(),
            args.sender_view(),
            args.args_view(),
        ) {
            Some(t) => r == Some(reference_end(v@, start as int) as usize) && final(ret)@ == old(
                ret,
            )@ + t,
            None => r is None,
        },
{
    let n = v.len();
    let k = find_char(v.as_slice(), start, '}');
    let ghost body = v@.skip(start as int);
    proof {
        lemma_index_of_bound(body, '}');
    }
    let var = string_of(v.as_slice(), start, start + k);
    let varc = chars_of(var.as_str());
    assert(varc@ =~= body.take(k as int));
    assert(varc@.skip(0) =~= varc@);
    let next = if start + k < n {
        start + k + 1
    } else {
        n
    };
    if chars_eq_str(varc.as_slice(), "count") {
        let t = usize_to_string(args.count);
        let tc = chars_of(t.as_str());
        append_chars(ret, tc.as_slice());
    } else if chars_eq_str(varc.as_slice(), "sender") {
        let tc = chars_of(args.sender.as_str());
        append_chars(ret, tc.as_slice());
    } else {
        match parse_unsigned(varc.as_slice(), 0, usize::MAX as u64) {
            Some(m) => {
                let m = m as usize;
                if m < args.command_args.len() {
                    let tc = chars_of(args.command_args[m].as_str());
                    append_chars(ret, tc.as_slice());
                } else {
                    return None;
                }
            },
            None => {
                push_char(ret, '$');
                push_char(ret, '{');
                append_chars(ret, varc.as_slice());
                push_char(ret, '}');
                assert(final(ret)@ =~= old(ret)@ + (seq!['$', '{'] + varc@ + seq!['}']));
            },
        }
    }
    Some(next)
}

/// Renders the template `spec` with `args`.
pub fn format(spec: &str, args: FormatArgs) -> (r: BotResult<String>)
    ensures
        match render(spec@, args.count_view(), args.sender_view(), args.args_view()) {
            Some(t) => r matches Ok(s) && s@ == t,
            None => r matches Err(BotError::Command(CommandError::NotEnoughArgs)),
        },
{
    let v = chars_of(spec);
    let ghost count = args.count_view();
    let ghost sender = args.sender_view();
    let ghost wargs = args.args_view();
    let n = v.len();
    let mut ret = String::new();
    let mut i: usize = 0;
    assert(v@.skip(0) =~= v@);
    assert(Seq::<char>::empty() + v@ =~= v@);
    while i < n
        invariant
            n == v@.len(),
            v@ == spec@,
            i <= n,
            count == args.count_view(),
            sender == args.sender_view(),
            wargs == args.args_view(),
            render(v@, count, sender, wargs) == after(
                ret@,
                render(v@.skip(i as int), count, sender, wargs),
            ),
        decreases n - i,
    {
        let ghost s = v@.skip(i as int);
        let ghost old_ret = ret@;
        let c = v[i];
        assert(s[0] == c);
        if c == '$' && i + 1 < n && v[i + 1] == '{' {
            let start = i + 2;
            assert(s.skip(2) =~= v@.skip(start as int));
            match render_reference(&v, start, &args, &mut ret) {
                None => {
                    assert(s.len() >= 2 && s[1] == '{');
                    assert(render(s, count, sender, wargs) is None);
                    return Err(BotError::Command(CommandError::NotEnoughArgs));
                },
                Some(next) => {
                    proof {
                        let body = s.skip(2);
                        let t = substitution(
                            body.take(index_of(body, '}') as int),
                            count,
                            sender,
                            wargs,
                        );
                        let rest = v@.skip(next as int);
                        lemma_index_of_bound(body, '}');
                        assert(rest =~= (if index_of(body, '}') < body.len() {
                            body.skip(index_of(body, '}') as int + 1)
                        } else {
                            Seq::<char>::empty()
                        }));
                        match render(rest, count, sender, wargs) {
                            Some(rr) => {
                                assert(old_ret + (t.unwrap() + rr) =~= ret@ + rr);
                            },
                            None => {},
                        }
                    }
                    i = next;
                },
            }
        } else {
            push_char(&mut ret, c);
            assert(v@.skip(i + 1) =~= s.skip(1));
            proof {
                match render(s.skip(1), count, sender, wargs) {
                    Some(rr) => {
                        assert(old_ret + (seq![c] + rr) =~= ret@ + rr);
                    },
                    None => {},
                }
            }
            i = i + 1;
        }
    }
    assert(v@.skip(n as int) =~= Seq::<char>::empty());
    assert(ret@ + Seq::<char>::empty() =~= ret@);
    Ok(ret)
}

/// A template in which `${` does not occur renders to itself: text outside
/// a reference comes back as written.
pub proof fn law_plain_template_unchanged(s: Seq<char>, count: nat, sender: Seq<char>, args: Seq<Seq<char>>)
    requires
        !occurs_in("${"@, s),
    ensures
        render(s, count, sender, args) == Some(s),
    decreases s.len(),
{
    reveal_strlit("${");
    if s.len() > 0 {
        if s.len() >= 2 && s[0] == '$' && s[1] == '{' {
            let j: int = 0;
            assert(s.subrange(j, j + "${"@.len()) =~= "${"@);
            assert(occurs_in("${"@, s));
        }
        let t = s.skip(1);
        if occurs_in("${"@, t) {
            let i = choose|i: int|
                0 <= i && i + 2 <= t.len() && #[trigger] t.subrange(i, i + 2) == "${"@;
            let j: int = i + 1;
            assert(s.subrange(j, j + "${"@.len()) =~= t.subrange(i, i + 2));
            assert(occurs_in("${"@, s));
        }
        law_plain_template_unchanged(t, count, sender, args);
        assert(seq![s[0]] + t =~= s);
    }
}

/// `${count}` renders to the number of runs, and `${sender}` to the sender,
/// with the rest of the template after them.
pub proof fn law_count_and_sender(rest: Seq<char>, count: nat, sender: Seq<char>, args: Seq<Seq<char>>)
    ensures
        render(seq!['$', '{'] + "count"@ + seq!['}'] + rest, count, sender, args) == after(
            decimal_spec(count),
            render(rest, count, sender, args),
        ),
        render(seq!['$', '{'] + "sender"@ + seq!['}'] + rest, count, sender, args) == after(
            sender,
            render(rest, count, sender, args),
        ),
{
    reveal_strlit("count");
    reveal_strlit("sender");
    let s = seq!['$', '{'] + "count"@ + seq!['}'] + rest;
    let body = s.skip(2);
    assert(body =~= "count"@ + seq!['}'] + rest);
    crate::text::lemma_index_of(body, '}', 5);
    assert(body.take(5) =~= "count"@);
    assert(body.skip(6) =~= rest);
    let s2 = seq!['$', '{'] + "sender"@ + seq!['}'] + rest;
    let body2 = s2.skip(2);
    assert(body2 =~= "sender"@ + seq!['}'] + rest);
    crate::text::lemma_index_of(body2, '}', 6);
    assert(body2.take(6) =~= "sender"@);
    assert(body2.skip(7) =~= rest);
    assert(s2.len() >= 2 && s2[0] == '$' && s2[1] == '{');
    assert(s.len() >= 2 && s[0] == '$' && s[1] == '{');
}

} // verus!
