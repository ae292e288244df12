//! Asking for traffic to be blocked or limited, and saying what came of it.

use std::collections::BTreeSet;

use vstd::prelude::*;

use crate::controller::scope::{Control, Target};
use crate::decimal;
use crate::decimal::append_decimal;
use crate::text;

verus! {

broadcast use vstd::laws_cmp::group_laws_cmp;

/// What the user of the window asked for.
#[derive(Clone, Copy, Debug, PartialEq, Eq, Structural)]
pub enum Request {
    Block,
    Unblock,
    Limit { rate_kbps: u32 },
}

/// Who is under control.
pub struct ControlSets {
    pub blocked_pids: BTreeSet<u32>,
    pub blocked_threads: BTreeSet<(u32, u32)>,
    pub blocked_users: BTreeSet<u32>,
    pub rate_limited_pids: BTreeSet<u32>,
    pub rate_limited_threads: BTreeSet<(u32, u32)>,
    pub rate_limited_users: BTreeSet<u32>,
}

/// A target by its numbers.
pub open spec fn subject(target: Target) -> Seq<char> {
    match target {
        Target::Process { pid } => "PID "@ + decimal::decimal(pid as nat),
        Target::Thread { pid, tid } => "PID "@ + decimal::decimal(pid as nat) + ", TID "@
            + decimal::decimal(tid as nat),
        Target::User { uid } => "UID "@ + decimal::decimal(uid as nat),
    }
}

/// A target by its name and its numbers.
pub open spec fn named_subject(target: Target, name: Seq<char>) -> Seq<char> {
    (if target is User {
        "user "@
    } else {
        Seq::empty()
    }) + name + " ("@ + subject(target) + ")"@
}

/// What the status line says of a request that was met.
pub open spec fn success_text(request: Request, target: Target, name: Seq<char>) -> Seq<char> {
    match request {
        Request::Block => "Blocked "@ + named_subject(target, name),
        Request::Unblock => "Unblocked "@ + if target is User {
            named_subject(target, name)
        } else {
            subject(target)
        },
        Request::Limit { rate_kbps } => "Rate-limited "@ + named_subject(target, name) + " to "@
            + decimal::decimal(rate_kbps as nat) + " kbit/s"@,
    }
}

/// What the status line says of a request that was refused.
pub open spec fn failure_text(request: Request, target: Target, error: Seq<char>) -> Seq<char> {
    (match request {
        Request::Block => "Block failed for "@,
        Request::Unblock => "Unblock failed for "@,
        Request::Limit { .. } => "Rate limit failed for "@,
    }) + subject(target) + ": "@ + error
}

fn append_subject(line: &mut String, target: Target)
    ensures
        final(line)@ == old(line)@ + subject(target),
{
    match target {
        Target::Process { pid } => {
            line.append("PID ");
            append_decimal(line, pid as u64);
        },
        Target::Thread { pid, tid } => {
            line.append("PID ");
            append_decimal(line, pid as u64);
            line.append(", TID ");
            append_decimal(line, tid as u64);
        },
        Target::User { uid } => {
            line.append("UID ");
            append_decimal(line, uid as u64);
        },
    }
    assert(line@ =~= old(line)@ + subject(target));
}

fn append_named_subject(line: &mut String, target: Target, name: &str)
    ensures
        final(line)@ == old(line)@ + named_subject(target, name@),
{
    if let Target::User { .. } = target {
        line.append("user ");
    }
    line.append(name);
    line.append(" (");
    append_subject(line, target);
    line.append(")");
    assert(line@ =~= old(line)@ + named_subject(target, name@));
}

/// What the status line says of a request and what came of it.
pub fn control_status(
    request: Request,
    target: Target,
    name: &str,
    result: &Result<(), String>,
) -> (status: String)
    ensures
        status@ == (match *result {
            Ok(()) => success_text(request, target, name@),
            Err(error) => failure_text(request, target, error@),
        }),
{
    let mut status = String::new();
    match result {
        Ok(()) => {
            match request {
                Request::Block => {
                    status.append("Blocked ");
                    append_named_subject(&mut status, target, name);
                },
                Request::Unblock => {
                    status.append("Unblocked ");
                    if let Target::User { .. } = target {
                        append_named_subject(&mut status, target, name);
                    } else {
                        append_subject(&mut status, target);
                    }
                },
                Request::Limit { rate_kbps } => {
                    status.append("Rate-limited ");
                    append_named_subject(&mut status, target, name);
                    status.append(" to ");
                    append_decimal(&mut status, rate_kbps as u64);
                    status.append(" kbit/s");
                },
            }
            assert(status@ =~= success_text(request, target, name@));
        },
        Err(error) => {
            match request {
                Request::Block => {
                    status.append("Block failed for ");
                },
                Request::Unblock => {
                    status.append("Unblock failed for ");
                },
                Request::Limit { .. } => {
                    status.append("Rate limit failed for ");
                },
            }
            append_subject(&mut status, target);
            status.append(": ");
            status.append(error.as_str());
            assert(status@ =~= failure_text(request, target, error@));
        },
    }
    status
}

/// The model of who is under control.
pub open spec fn controlled(sets: ControlSets, target: Target, control: Control) -> bool {
    match (target, control) {
        (Target::Process { pid }, Control::Block) => sets.blocked_pids@.contains(pid),
        (Target::Thread { pid, tid }, Control::Block) => sets.blocked_threads@.contains((pid, tid)),
        (Target::User { uid }, Control::Block) => sets.blocked_users@.contains(uid),
        (Target::Process { pid }, Control::Limit) => sets.rate_limited_pids@.contains(pid),
        (Target::Thread { pid, tid }, Control::Limit) => sets.rate_limited_threads@.contains(
            (pid, tid),
        ),
        (Target::User { uid }, Control::Limit) => sets.rate_limited_users@.contains(uid),
    }
}

fn mark<T: Copy + std::cmp::Ord>(set: &mut BTreeSet<T>, item: T, on: bool)
    requires
        vstd::laws_cmp::obeys_cmp::<T>(),
    ensures
        final(set)@ == (if on {
            old(set)@.insert(item)
        } else {
            old(set)@.remove(item)
        }),
{
    if on {
        set.insert(item);
    } else {
        set.remove(&item);
    }
}

impl ControlSets {
    /// Nobody is under control.
    pub fn new() -> (sets: Self)
        ensures
            forall|target: Target, control: Control| !#[trigger] controlled(sets, target, control),
    {
        ControlSets {
            blocked_pids: BTreeSet::new(),
            blocked_threads: BTreeSet::new(),
            blocked_users: BTreeSet::new(),
            rate_limited_pids: BTreeSet::new(),
            rate_limited_threads: BTreeSet::new(),
            rate_limited_users: BTreeSet::new(),
        }
    }

    /// Takes in what came of an operation: only one that was met changes who
    /// is under control, and it changes nothing but its own target.
    pub fn record(
        &mut self,
        target: Target,
        control: Control,
        on: bool,
        result: &Result<(), String>,
    )
        ensures
            forall|other: Target, kind: Control| #[trigger]
                controlled(*final(self), other, kind) == (if result is Ok && other == target && kind
                    == control {
                    on
                } else {
                    controlled(*old(self), other, kind)
                }),
    {
        if result.is_err() {
            return;
        }
        match (target, control) {
            (Target::Process { pid }, Control::Block) => mark(&mut self.blocked_pids, pid, on),
            (Target::Thread { pid, tid }, Control::Block) => mark(
                &mut self.blocked_threads,
                (pid, tid),
                on,
            ),
            (Target::User { uid }, Control::Block) => mark(&mut self.blocked_users, uid, on),
            (Target::Process { pid }, Control::Limit) => mark(&mut self.rate_limited_pids, pid, on),
            (Target::Thread { pid, tid }, Control::Limit) => mark(
                &mut self.rate_limited_threads,
                (pid, tid),
                on,
            ),
            (Target::User { uid }, Control::Limit) => mark(&mut self.rate_limited_users, uid, on),
        }
    }
}

/// What recording an operation that was met makes of who is under control.
pub open spec fn recorded(
    earlier: ControlSets,
    later: ControlSets,
    target: Target,
    control: Control,
    on: bool,
) -> bool {
    forall|other: Target, kind: Control| #[trigger]
        controlled(later, other, kind) == (if other == target && kind == control {
            on
        } else {
            controlled(earlier, other, kind)
        })
}

/// A set after something was put into it or taken out of it, or left alone.
pub open spec fn marked<T>(set: Set<T>, item: Option<T>, on: bool) -> Set<T> {
    match item {
        Some(one) => if on {
            set.insert(one)
        } else {
            set.remove(one)
        },
        None => set,
    }
}

/// Recording goes into the one set that is for such targets and such control:
/// blocked processes, blocked threads, blocked users, and the limited ones,
/// each have a set of their own, and the other five stay as they are.
pub proof fn recording_goes_into_one_set(
    earlier: ControlSets,
    later: ControlSets,
    target: Target,
    control: Control,
    on: bool,
)
    requires
        recorded(earlier, later, target, control, on),
    ensures
        ({
            let pid = match target {
                Target::Process { pid } => Some(pid),
                _ => None,
            };
            let thread = match target {
                Target::Thread { pid, tid } => Some((pid, tid)),
                _ => None,
            };
            let uid = match target {
                Target::User { uid } => Some(uid),
                _ => None,
            };
            let block = control == Control::Block;
            &&& later.blocked_pids@ == marked(earlier.blocked_pids@, if block {
                pid
            } else {
                None
            }, on)
            &&& later.blocked_threads@ == marked(earlier.blocked_threads@, if block {
                thread
            } else {
                None
            }, on)
            &&& later.blocked_users@ == marked(earlier.blocked_users@, if block {
                uid
            } else {
                None
            }, on)
            &&& later.rate_limited_pids@ == marked(earlier.rate_limited_pids@, if block {
                None
            } else {
                pid
            }, on)
            &&& later.rate_limited_threads@ == marked(earlier.rate_limited_threads@, if block {
                None
            } else {
                thread
            }, on)
            &&& later.rate_limited_users@ == marked(earlier.rate_limited_users@, if block {
                None
            } else {
                uid
            }, on)
        }),
{
    assert forall|p: u32|
        later.blocked_pids@.contains(p) == controlled(
            later,
            Target::Process { pid: p },
            Control::Block,
        ) && later.rate_limited_pids@.contains(p) == controlled(
            later,
            Target::Process { pid: p },
            Control::Limit,
        ) && later.blocked_users@.contains(p) == controlled(
            later,
            Target::User { uid: p },
            Control::Block,
        ) && later.rate_limited_users@.contains(p) == controlled(
            later,
            Target::User { uid: p },
            Control::Limit,
        ) by {}
    assert forall|t: (u32, u32)|
        later.blocked_threads@.contains(t) == controlled(
            later,
            Target::Thread { pid: t.0, tid: t.1 },
            Control::Block,
        ) && later.rate_limited_threads@.contains(t) == controlled(
            later,
            Target::Thread { pid: t.0, tid: t.1 },
            Control::Limit,
        ) by {}
    let pid = match target {
        Target::Process { pid } => Some(pid),
        _ => None,
    };
    let thread = match target {
        Target::Thread { pid, tid } => Some((pid, tid)),
        _ => None,
    };
    let uid = match target {
        Target::User { uid } => Some(uid),
        _ => None,
    };
    let block = control == Control::Block;
    assert(later.blocked_pids@ =~= marked(earlier.blocked_pids@, if block {
        pid
    } else {
        None
    }, on));
    assert(later.blocked_threads@ =~= marked(earlier.blocked_threads@, if block {
        thread
    } else {
        None
    }, on));
    assert(later.blocked_users@ =~= marked(earlier.blocked_users@, if block {
        uid
    } else {
        None
    }, on));
    assert(later.rate_limited_pids@ =~= marked(earlier.rate_limited_pids@, if block {
        None
    } else {
        pid
    }, on));
    assert(later.rate_limited_threads@ =~= marked(earlier.rate_limited_threads@, if block {
        None
    } else {
        thread
    }, on));
    assert(later.rate_limited_users@ =~= marked(earlier.rate_limited_users@, if block {
        None
    } else {
        uid
    }, on));
}

/// The numbers of a target as the status line gives them.
pub open spec fn numbers_of(target: Target) -> Seq<char> {
    match target {
        Target::Process { pid } => "PID "@ + decimal::decimal(pid as nat),
        Target::Thread { pid, tid } => "PID "@ + decimal::decimal(pid as nat) + ", TID "@
            + decimal::decimal(tid as nat),
        Target::User { uid } => "UID "@ + decimal::decimal(uid as nat),
    }
}

/// The status line says what was asked, of whom, and what came of it: a report
/// begins with what was done or was not, has the numbers of the target, has the
/// name and the rate where a limit was set, and ends in the error where there
/// was one.
pub proof fn reports_say_what_came_of_it(
    request: Request,
    target: Target,
    name: Seq<char>,
    error: Seq<char>,
)
    ensures
        text::has_part(success_text(request, target, name), numbers_of(target)),
        text::has_part(failure_text(request, target, error), numbers_of(target)),
        text::finishes_with(failure_text(request, target, error), ": "@ + error),
        !(request is Unblock) || target is User ==> text::has_part(
            success_text(request, target, name),
            name + " ("@ + numbers_of(target) + ")"@,
        ),
        request matches Request::Limit { rate_kbps } ==> text::finishes_with(
            success_text(request, target, name),
            " to "@ + decimal::decimal(rate_kbps as nat) + " kbit/s"@,
        ),
        text::begins_with(
            success_text(request, target, name),
            match request {
                Request::Block => "Blocked "@,
                Request::Unblock => "Unblocked "@,
                Request::Limit { .. } => "Rate-limited "@,
            },
        ),
        text::begins_with(
            failure_text(request, target, error),
            match request {
                Request::Block => "Block failed for "@,
                Request::Unblock => "Unblock failed for "@,
                Request::Limit { .. } => "Rate limit failed for "@,
            },
        ),
{
    success_is_reported(request, target, name);
    failure_is_reported(request, target, error);
}

proof fn success_is_reported(request: Request, target: Target, name: Seq<char>)
    ensures
        text::has_part(success_text(request, target, name), numbers_of(target)),
        !(request is Unblock) || target is User ==> text::has_part(
            success_text(request, target, name),
            name + " ("@ + numbers_of(target) + ")"@,
        ),
        request matches Request::Limit { rate_kbps } ==> text::finishes_with(
            success_text(request, target, name),
            " to "@ + decimal::decimal(rate_kbps as nat) + " kbit/s"@,
        ),
        text::begins_with(
            success_text(request, target, name),
            match request {
                Request::Block => "Blocked "@,
                Request::Unblock => "Unblocked "@,
                Request::Limit { .. } => "Rate-limited "@,
            },
        ),
{
    let numbers = numbers_of(target);
    assert(subject(target) == numbers);
    let user = if target is User {
        "user "@
    } else {
        Seq::empty()
    };
    let named = name + " ("@ + numbers + ")"@;
    assert(named_subject(target, name) =~= user + named);
    let success = success_text(request, target, name);
    match request {
        Request::Block => {
            names_are_reported("Blocked "@, user, name, numbers, Seq::empty());
            assert(success =~= "Blocked "@ + (user + named) + Seq::empty());
        },
        Request::Unblock => {
            if target is User {
                names_are_reported("Unblocked "@, user, name, numbers, Seq::empty());
                assert(success =~= "Unblocked "@ + (user + named) + Seq::empty());
            } else {
                part_in_the_middle("Unblocked "@, numbers, Seq::empty());
                assert("Unblocked "@ + numbers + Seq::empty() =~= success);
                at_both_ends("Unblocked "@, numbers);
            }
        },
        Request::Limit { rate_kbps } => {
            let rate = " to "@ + decimal::decimal(rate_kbps as nat) + " kbit/s"@;
            names_are_reported("Rate-limited "@, user, name, numbers, rate);
            assert(success =~= "Rate-limited "@ + (user + named) + rate);
        },
    }
}

proof fn names_are_reported(
    done: Seq<char>,
    user: Seq<char>,
    name: Seq<char>,
    numbers: Seq<char>,
    rate: Seq<char>,
)
    ensures
        ({
            let named = name + " ("@ + numbers + ")"@;
            let whole = done + (user + named) + rate;
            &&& text::has_part(whole, numbers)
            &&& text::has_part(whole, named)
            &&& text::begins_with(whole, done)
            &&& text::finishes_with(whole, rate)
        }),
{
    let named = name + " ("@ + numbers + ")"@;
    let whole = done + (user + named) + rate;
    part_in_the_middle(done + user, named, rate);
    assert(done + user + named + rate =~= whole);
    let front = done + user + (name + " ("@);
    part_in_the_middle(front, numbers, ")"@ + rate);
    assert(front + numbers + (")"@ + rate) =~= whole);
    at_both_ends(done, user + named + rate);
    assert(done + (user + named + rate) =~= whole);
    at_both_ends(done + (user + named), rate);
}

proof fn failure_is_reported(request: Request, target: Target, error: Seq<char>)
    ensures
        text::has_part(failure_text(request, target, error), numbers_of(target)),
        text::finishes_with(failure_text(request, target, error), ": "@ + error),
        text::begins_with(
            failure_text(request, target, error),
            match request {
                Request::Block => "Block failed for "@,
                Request::Unblock => "Unblock failed for "@,
                Request::Limit { .. } => "Rate limit failed for "@,
            },
        ),
{
    let numbers = numbers_of(target);
    assert(subject(target) == numbers);
    let refused = match request {
        Request::Block => "Block failed for "@,
        Request::Unblock => "Unblock failed for "@,
        Request::Limit { .. } => "Rate limit failed for "@,
    };
    let failure = failure_text(request, target, error);
    let tail = ": "@ + error;
    assert(failure =~= refused + numbers + tail);
    part_in_the_middle(refused, numbers, tail);
    at_both_ends(refused + numbers, tail);
    assert(failure =~= refused + (numbers + tail));
    at_both_ends(refused, numbers + tail);
}

proof fn part_in_the_middle(front: Seq<char>, part: Seq<char>, back: Seq<char>)
    ensures
        text::has_part(front + part + back, part),
{
    let whole = front + part + back;
    assert(whole.subrange(front.len() as int, (front.len() + part.len()) as int) =~= part);
    assert(text::occurs_at(whole, part, front.len() as int));
}

proof fn at_both_ends(front: Seq<char>, back: Seq<char>)
    ensures
        text::begins_with(front + back, front),
        text::finishes_with(front + back, back),
{
    let whole = front + back;
    assert(whole.subrange(0, front.len() as int) =~= front);
    assert(whole.subrange(whole.len() - back.len(), whole.len() as int) =~= back);
}

/// A report of success begins with what was done, and then says to whom: by
/// name, with the numbers behind it, where a user is told from others by the
/// word before the name; only a process or a thread that is let go again is
/// said by its numbers alone.  A report of failure says what failed, and then
/// the numbers.
pub proof fn reports_say_to_whom(
    request: Request,
    target: Target,
    name: Seq<char>,
    error: Seq<char>,
)
    ensures
        text::begins_with(
            success_text(request, target, name),
            (match request {
                Request::Block => "Blocked "@,
                Request::Unblock => "Unblocked "@,
                Request::Limit { .. } => "Rate-limited "@,
            }) + if target is User {
                "user "@ + name + " ("@ + numbers_of(target) + ")"@
            } else if request is Unblock {
                numbers_of(target)
            } else {
                name + " ("@ + numbers_of(target) + ")"@
            },
        ),
        text::begins_with(
            failure_text(request, target, error),
            (match request {
                Request::Block => "Block failed for "@,
                Request::Unblock => "Unblock failed for "@,
                Request::Limit { .. } => "Rate limit failed for "@,
            }) + numbers_of(target) + ": "@,
        ),
{
    assert(subject(target) =~= numbers_of(target));
    let whom = if target is User {
        "user "@ + name + " ("@ + numbers_of(target) + ")"@
    } else if request is Unblock {
        numbers_of(target)
    } else {
        name + " ("@ + numbers_of(target) + ")"@
    };
    if target is User || !(request is Unblock) {
        assert(named_subject(target, name) =~= whom);
    }
    let done = match request {
        Request::Block => "Blocked "@,
        Request::Unblock => "Unblocked "@,
        Request::Limit { .. } => "Rate-limited "@,
    };
    let said = success_text(request, target, name);
    assert(said.subrange(0, (done + whom).len() as int) =~= done + whom);
    let failed = (match request {
        Request::Block => "Block failed for "@,
        Request::Unblock => "Unblock failed for "@,
        Request::Limit { .. } => "Rate limit failed for "@,
    }) + numbers_of(target) + ": "@;
    assert(failure_text(request, target, error).subrange(0, failed.len() as int) =~= failed);
}

} // verus!
