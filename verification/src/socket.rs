use vstd::prelude::*;
use vstd::string::*;
use crate::subprocesses::{detached, plan_for, Processes, StartPlan};
use crate::text::{is_space, is_space_char, str_eq};

verus! {

/// Tokenizer state after the first `i` characters: `cur` is the word being
/// read, `acc` the words already read. Words are maximal runs of
/// non-whitespace characters.
pub open spec fn tok_rec(s: Seq<char>, i: int, cur: Seq<char>, acc: Seq<Seq<char>>) -> Seq<
    Seq<char>,
>
    decreases s.len() - i,
{
    if i < 0 || i >= s.len() {
        if cur.len() > 0 {
            acc.push(cur)
        } else {
            acc
        }
    } else if is_space_char(s[i]) {
        if cur.len() > 0 {
            tok_rec(s, i + 1, Seq::empty(), acc.push(cur))
        } else {
            tok_rec(s, i + 1, cur, acc)
        }
    } else {
        tok_rec(s, i + 1, cur.push(s[i]), acc)
    }
}

/// The whitespace-separated tokens of a message, in order.
pub open spec fn tokens(s: Seq<char>) -> Seq<Seq<char>> {
    tok_rec(s, 0, Seq::empty(), Seq::empty())
}

/// A parsed control message: `<command> <target>`.
pub struct Msg {
    pub command: String,
    pub sub: String,
}

/// Control-message parsing: a message is well-formed exactly when it
/// consists of two whitespace-separated tokens; the first is the command,
/// the second the target.
pub fn parse_msg(msg: &str) -> (r: Option<Msg>)
    ensures
        r is Some <==> tokens(msg@).len() == 2,
        r matches Some(m) ==> m.command@ == tokens(msg@)[0] && m.sub@ == tokens(msg@)[1],
{
    let n: usize = msg.unicode_len();
    let mut toks: Vec<String> = Vec::new();
    let mut cur = String::new();
    let mut i: usize = 0;
    proof {
        assert(toks.deep_view() =~= Seq::<Seq<char>>::empty());
        assert(tokens(msg@) == tok_rec(msg@, 0, cur@, toks.deep_view()));
    }
    while i < n
        invariant
            n == msg@.len(),
            i <= n,
            tokens(msg@) == tok_rec(msg@, i as int, cur@, toks.deep_view()),
        decreases n - i,
    {
        let c = msg.get_char(i);
        let ghost prev_toks = toks.deep_view();
        let ghost prev_cur = cur@;
        if is_space(c) {
            if !cur.as_str().is_empty() {
                toks.push(cur);
                cur = String::new();
                proof {
                    assert forall|j: int| 0 <= j < toks.deep_view().len() implies toks.deep_view()[j]
                        == prev_toks.push(prev_cur)[j] by {
                        assert(toks.deep_view()[j] == toks@[j].deep_view());
                    }
                    assert(toks.deep_view() =~= prev_toks.push(prev_cur));
                }
            }
        } else {
            let piece = msg.substring_char(i, i + 1);
            cur.append(piece);
            proof {
                assert(cur@ =~= prev_cur.push(msg@[i as int]));
            }
        }
        i += 1;
    }
    let ghost final_toks = tokens(msg@);
    if !cur.as_str().is_empty() {
        let ghost prev_toks = toks.deep_view();
        let ghost prev_cur = cur@;
        toks.push(cur);
        proof {
            assert forall|j: int| 0 <= j < toks.deep_view().len() implies toks.deep_view()[j]
                == prev_toks.push(prev_cur)[j] by {
                assert(toks.deep_view()[j] == toks@[j].deep_view());
            }
            assert(toks.deep_view() =~= prev_toks.push(prev_cur));
        }
    }
    proof {
        assert(final_toks == toks.deep_view());
    }
    if toks.len() == 2 {
        let sub = toks.pop().unwrap();
        let command = toks.pop().unwrap();
        proof {
            assert(command@ == final_toks[0]);
            assert(sub@ == final_toks[1]);
        }
        Some(Msg { command, sub })
    } else {
        None
    }
}

/// The outcome of one control message: a restart plan for a known target,
/// or one of the three diagnostics — malformed message, unrecognized
/// command, unknown target. Only the restart touches the registry; whether
/// a failed restart is fatal is the dispatcher's policy, not decided here.
pub enum ControlOutcome {
    Restart(StartPlan, String),
    UnknownCommand(String),
    UnknownTarget(String),
    Malformed,
}

/// Control-message dispatch: parse the message as `<command> <target>`;
/// only the command `restart` on a supervised target detaches that
/// target's handle and plans the terminate-then-spawn pair; everything
/// else is a diagnostic and leaves the registry untouched.
pub fn handle_message(processes: &mut Processes, msg: &str, program: &str) -> (r: ControlOutcome)
    requires
        old(processes).wf(),
    ensures
        final(processes).wf(),
        final(processes).names() == old(processes).names(),
        ({
            let ts = tokens(msg@);
            if ts.len() != 2 {
                r is Malformed && final(processes)@ == old(processes)@
            } else if ts[0] != "restart"@ {
                r matches ControlOutcome::UnknownCommand(c) && c@ == ts[0] && final(processes)@
                    == old(processes)@
            } else if !old(processes)@.contains_key(ts[1]) {
                r matches ControlOutcome::UnknownTarget(t) && t@ == ts[1] && final(processes)@
                    == old(processes)@
            } else {
                r matches ControlOutcome::Restart(plan, name) && name@ == ts[1] && plan_for(
                    old(processes)@[ts[1]],
                    ts[1],
                    program@,
                    plan,
                ) && final(processes)@ == detached(old(processes)@, ts[1])
            }
        }),
{
    match parse_msg(msg) {
        None => ControlOutcome::Malformed,
        Some(m) => {
            if !str_eq(m.command.as_str(), "restart") {
                ControlOutcome::UnknownCommand(m.command)
            } else {
                match processes.restart(m.sub.as_str(), program) {
                    Some(plan) => ControlOutcome::Restart(plan, m.sub),
                    None => ControlOutcome::UnknownTarget(m.sub),
                }
            }
        },
    }
}

} // verus!
