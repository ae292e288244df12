//! What the runs of nft say: which of them count as done, and what the listing
//! of the chain holds.

use vstd::prelude::*;

use crate::decimal;
use crate::decimal::parse_number;
use crate::scan;
use crate::scan::{lines_of, slice_of, trim};
use crate::text;
use crate::text::{chars_of, contains_part, last_place, same_text, string_of, text_contains};

verus! {

/// How far a run got that came to nothing.
#[derive(Clone, Copy, Debug, PartialEq, Eq, Structural)]
pub enum RunPhase {
    Start,
    Write,
    Wait,
}

/// What came of running nft.
#[derive(Debug)]
pub enum NftReply {
    /// The run itself failed: the operating system's message, and whether it
    /// says that there is no such program.
    Failed { phase: RunPhase, not_found: bool, message: String },
    /// nft ran to its end.
    Finished { success: bool, stdout: String, stderr: String },
}

/// The model of a reply.
pub enum ReplyView {
    Failed { phase: RunPhase, not_found: bool, message: Seq<char> },
    Finished { success: bool, stdout: Seq<char>, stderr: Seq<char> },
}

impl View for NftReply {
    type V = ReplyView;

    open spec fn view(&self) -> ReplyView {
        match self {
            NftReply::Failed { phase, not_found, message } => ReplyView::Failed {
                phase: *phase,
                not_found: *not_found,
                message: message@,
            },
            NftReply::Finished { success, stdout, stderr } => ReplyView::Finished {
                success: *success,
                stdout: stdout@,
                stderr: stderr@,
            },
        }
    }
}

/// The outcome of a step: done, or the text of an error.
pub enum Outcome {
    Done,
    Refused { error: Seq<char> },
}

/// The model of a result.
pub open spec fn outcome(result: Result<(), String>) -> Outcome {
    match result {
        Ok(()) => Outcome::Done,
        Err(error) => Outcome::Refused { error: error@ },
    }
}

/// What is said of a program that could not be started.
pub open spec fn start_error(not_found: bool, message: Seq<char>) -> Seq<char> {
    if not_found {
        "nft command not found"@
    } else {
        "failed to run nft: "@ + message
    }
}

/// An error that says that something is there already.
pub open spec fn says_exists(error: Seq<char>) -> bool {
    text::has_part(error, "exists"@)
}

/// The outcome of a command; where `ignore_exists` is set, the complaint that
/// something is there already does not count.
pub open spec fn command_outcome(reply: ReplyView, ignore_exists: bool) -> Outcome {
    match reply {
        ReplyView::Failed { not_found, message, .. } => Outcome::Refused {
            error: start_error(not_found, message),
        },
        ReplyView::Finished { success, stderr, .. } => if success || (ignore_exists && says_exists(
            stderr,
        )) {
            Outcome::Done
        } else {
            Outcome::Refused { error: stderr }
        },
    }
}

/// The outcome of a script.
pub open spec fn script_outcome(reply: ReplyView) -> Outcome {
    match reply {
        ReplyView::Failed { phase: RunPhase::Start, not_found, message } => Outcome::Refused {
            error: start_error(not_found, message),
        },
        ReplyView::Failed { phase: RunPhase::Write, message, .. } => Outcome::Refused {
            error: "stdin write failed: "@ + message,
        },
        ReplyView::Failed { phase: RunPhase::Wait, message, .. } => Outcome::Refused {
            error: "nft wait failed: "@ + message,
        },
        ReplyView::Finished { success, stderr, .. } => if success {
            Outcome::Done
        } else {
            Outcome::Refused { error: stderr }
        },
    }
}

/// The handle that a line of the listing gives for a rule with the marker: the
/// number behind the last `handle `.
pub open spec fn handle_in_line(line: Seq<char>, marker: Seq<char>) -> Option<u64> {
    if text::has_part(line, marker) && text::has_part(line, "handle "@) {
        let at = choose|at: int| text::is_last_place(line, "handle "@, at);
        match decimal::parsed(
            scan::trimmed(line.skip(at + "handle "@.len())),
            10,
            0xffff_ffff_ffff_ffff,
        ) {
            Some(handle) => Some(handle as u64),
            None => None,
        }
    } else {
        None
    }
}

/// The handles of the rules with the marker, in the order of the listing.
pub open spec fn handles_in_lines(lines: Seq<Seq<char>>, marker: Seq<char>) -> Seq<u64>
    decreases lines.len(),
{
    if lines.len() == 0 {
        Seq::empty()
    } else {
        let front = handles_in_lines(lines.drop_last(), marker);
        match handle_in_line(lines.last(), marker) {
            Some(handle) => front.push(handle),
            None => front,
        }
    }
}

/// The model of what a listing yields.
pub enum Found {
    Handles { handles: Seq<u64> },
    Refused { error: Seq<char> },
}

/// What a listing yields.
pub open spec fn listing_found(reply: ReplyView, marker: Seq<char>) -> Found {
    match reply {
        ReplyView::Failed { message, .. } => Found::Refused {
            error: "nft list failed: "@ + message,
        },
        ReplyView::Finished { success, stdout, stderr } => if success {
            Found::Handles { handles: handles_in_lines(scan::lines(stdout), marker) }
        } else {
            Found::Refused { error: stderr }
        },
    }
}

/// What is said of a program that could not be started.
pub fn map_nft_spawn_error(not_found: bool, message: &str) -> (error: String)
    ensures
        error@ == start_error(not_found, message@),
{
    if not_found {
        return "nft command not found".to_owned();
    }
    let mut error = "failed to run nft: ".to_owned();
    error.append(message);
    error
}

/// The outcome of a command.
pub fn command_result(reply: &NftReply, ignore_exists: bool) -> (result: Result<(), String>)
    ensures
        outcome(result) == command_outcome(reply@, ignore_exists),
{
    match reply {
        NftReply::Failed { not_found, message, .. } => Err(
            map_nft_spawn_error(*not_found, message.as_str()),
        ),
        NftReply::Finished { success, stderr, .. } => {
            if *success || (ignore_exists && text_contains(stderr.as_str(), "exists")) {
                Ok(())
            } else {
                Err(stderr.clone())
            }
        },
    }
}

/// The outcome of a script.
pub fn script_result(reply: &NftReply) -> (result: Result<(), String>)
    ensures
        outcome(result) == script_outcome(reply@),
{
    match reply {
        NftReply::Failed { phase, not_found, message } => {
            match phase {
                RunPhase::Start => Err(map_nft_spawn_error(*not_found, message.as_str())),
                RunPhase::Write => {
                    let mut error = "stdin write failed: ".to_owned();
                    error.append(message.as_str());
                    Err(error)
                },
                RunPhase::Wait => {
                    let mut error = "nft wait failed: ".to_owned();
                    error.append(message.as_str());
                    Err(error)
                },
            }
        },
        NftReply::Finished { success, stderr, .. } => {
            if *success {
                Ok(())
            } else {
                Err(stderr.clone())
            }
        },
    }
}

fn line_handle(line: &Vec<char>, marker: &Vec<char>, word: &Vec<char>) -> (handle: Option<u64>)
    requires
        word@ == "handle "@,
    ensures
        handle == handle_in_line(line@, marker@),
{
    if !contains_part(line, marker) {
        return None;
    }
    proof {
        reveal_strlit("handle ");
    }
    let size: usize = line.len();
    match last_place(line, word) {
        Some(at) => {
            proof {
                assert(text::has_part(line@, "handle "@));
                let chosen = choose|at: int| text::is_last_place(line@, "handle "@, at);
                assert(text::is_last_place(line@, "handle "@, at as int));
                assert(chosen == at);
            }
            let tail = slice_of(line, at + 7, size);
            assert(tail@ =~= line@.skip(at + 7));
            parse_number(&trim(&tail), 10, 0xffff_ffff_ffff_ffff)
        },
        None => None,
    }
}

/// The handles of the rules with the marker, in the order of the listing, or
/// the error with which the listing ended.
pub fn find_rule_handles_by_marker(reply: &NftReply, marker: &str) -> (found: Result<
    Vec<u64>,
    String,
>)
    ensures
        match found {
            Ok(handles) => listing_found(reply@, marker@) == (Found::Handles { handles: handles@ }),
            Err(error) => listing_found(reply@, marker@) == (Found::Refused { error: error@ }),
        },
{
    match reply {
        NftReply::Failed { message, .. } => {
            let mut error = "nft list failed: ".to_owned();
            error.append(message.as_str());
            Err(error)
        },
        NftReply::Finished { success, stdout, stderr } => {
            if !*success {
                return Err(stderr.clone());
            }
            let lines = lines_of(&chars_of(stdout.as_str()));
            let wanted = chars_of(marker);
            let word = chars_of("handle ");
            let ghost all = scan::lines(stdout@);
            let mut handles: Vec<u64> = Vec::new();
            let mut i: usize = 0;
            assert(all.take(0) =~= Seq::empty());
            while i < lines.len()
                invariant
                    i <= lines@.len(),
                    all == text::rows(lines@),
                    wanted@ == marker@,
                    word@ == "handle "@,
                    handles@ == handles_in_lines(all.take(i as int), marker@),
                decreases lines@.len() - i,
            {
                proof {
                    assert(all.take(i + 1).drop_last() =~= all.take(i as int));
                    assert(all.take(i + 1).last() == lines@[i as int]@);
                }
                if let Some(handle) = line_handle(&lines[i], &wanted, &word) {
                    handles.push(handle);
                }
                i += 1;
            }
            assert(all.take(i as int) =~= all);
            Ok(handles)
        },
    }
}

/// The lines in which nft prints the chain.
pub fn list_rules(reply: &NftReply) -> (rules: Result<Vec<String>, String>)
    ensures
        match reply@ {
            ReplyView::Failed { message, .. } => rules is Err && rules->Err_0@
                == "failed to run nft: "@ + message,
            ReplyView::Finished { success: false, stderr, .. } => rules is Err && rules->Err_0@
                == stderr,
            ReplyView::Finished { success: true, stdout, .. } => rules is Ok && text::texts(
                rules->Ok_0@,
            ) == scan::lines(stdout),
        },
{
    match reply {
        NftReply::Failed { message, .. } => {
            let mut error = "failed to run nft: ".to_owned();
            error.append(message.as_str());
            Err(error)
        },
        NftReply::Finished { success, stdout, stderr } => {
            if !*success {
                return Err(stderr.clone());
            }
            let lines = lines_of(&chars_of(stdout.as_str()));
            let ghost all = scan::lines(stdout@);
            let mut rules: Vec<String> = Vec::new();
            let mut i: usize = 0;
            assert(text::texts(rules@) =~= all.take(0));
            while i < lines.len()
                invariant
                    i <= lines@.len(),
                    all == text::rows(lines@),
                    text::texts(rules@) == all.take(i as int),
                decreases lines@.len() - i,
            {
                let ghost before = text::texts(rules@);
                let rule = string_of(&lines[i], 0, lines[i].len());
                assert(rule@ =~= all[i as int]);
                rules.push(rule);
                assert(text::texts(rules@) =~= before.push(all[i as int]));
                assert(text::texts(rules@) =~= all.take(i + 1));
                i += 1;
            }
            assert(all.take(i as int) =~= all);
            Ok(rules)
        },
    }
}

/// Whether the output of `id -u`, where it could be run, names the superuser.
pub fn is_root(id_output: Option<&str>) -> (yes: bool)
    ensures
        yes == (id_output is Some && scan::trimmed(id_output->0@) == "0"@),
{
    match id_output {
        Some(output) => {
            let number = trim(&chars_of(output));
            let printed = string_of(&number, 0, number.len());
            assert(printed@ =~= number@);
            same_text(printed.as_str(), "0")
        },
        None => false,
    }
}

/// A listing never yields a handle for a marker that stands in none of its
/// lines: rules of other scopes are left alone.
pub proof fn only_marked_lines_count(lines: Seq<Seq<char>>, marker: Seq<char>, handle: u64)
    requires
        handles_in_lines(lines, marker).contains(handle),
    ensures
        exists|i: int|
            0 <= i < lines.len() && text::has_part(#[trigger] lines[i], marker) && handle_in_line(
                lines[i],
                marker,
            ) == Some(handle),
    decreases lines.len(),
{
    if lines.len() > 0 {
        let front = handles_in_lines(lines.drop_last(), marker);
        let whole = handles_in_lines(lines, marker);
        let k = choose|k: int| 0 <= k < whole.len() && whole[k] == handle;
        if k < front.len() {
            assert(front[k] == handle);
            only_marked_lines_count(lines.drop_last(), marker, handle);
            let i = choose|i: int|
                0 <= i < lines.drop_last().len() && text::has_part(
                    #[trigger] lines.drop_last()[i],
                    marker,
                ) && handle_in_line(lines.drop_last()[i], marker) == Some(handle);
            assert(lines[i] == lines.drop_last()[i]);
        } else {
            assert(handle_in_line(lines[lines.len() - 1], marker) == Some(handle));
        }
    }
}

/// A command is done exactly if nft ran to its end and took it, or said no more
/// than that something is there already, where that does not count; a script
/// is done exactly if nft ran to its end and took it.
pub proof fn only_what_nft_took_is_done(reply: ReplyView, ignore_exists: bool)
    ensures
        command_outcome(reply, ignore_exists) == Outcome::Done <==> (reply
            matches ReplyView::Finished { success, stderr, .. } && (success || (ignore_exists
            && text::has_part(stderr, "exists"@)))),
        script_outcome(reply) == Outcome::Done <==> (reply matches ReplyView::Finished {
            success,
            ..
        } && success),
{
}

/// What nft or the operating system says of a failure is handed on: nft's own
/// words as they are, and the system's at the end of a line.
pub proof fn errors_are_handed_on(reply: ReplyView, marker: Seq<char>)
    ensures
        reply matches ReplyView::Finished { success: false, stderr, .. } ==> {
            &&& command_outcome(reply, false) == (Outcome::Refused { error: stderr })
            &&& !text::has_part(stderr, "exists"@) ==> command_outcome(reply, true) == (
            Outcome::Refused { error: stderr })
            &&& script_outcome(reply) == (Outcome::Refused { error: stderr })
            &&& listing_found(reply, marker) == (Found::Refused { error: stderr })
        },
        reply matches ReplyView::Failed { phase, not_found, message } ==> {
            &&& listing_found(reply, marker) matches Found::Refused { error }
            &&& text::finishes_with(error, message)
            &&& command_outcome(reply, true) == command_outcome(reply, false)
            &&& command_outcome(reply, true) matches Outcome::Refused { error: refused }
            &&& !not_found ==> text::finishes_with(refused, message)
            &&& not_found ==> refused == "nft command not found"@
            &&& script_outcome(reply) matches Outcome::Refused { error: stopped }
            &&& phase == RunPhase::Start ==> stopped == refused
            &&& phase != RunPhase::Start ==> text::finishes_with(stopped, message)
        },
{
    if let ReplyView::Failed { phase, not_found, message } = reply {
        ends_with("nft list failed: "@, message);
        ends_with("failed to run nft: "@, message);
        ends_with("stdin write failed: "@, message);
        ends_with("nft wait failed: "@, message);
    }
}

proof fn ends_with(front: Seq<char>, back: Seq<char>)
    ensures
        text::finishes_with(front + back, back),
{
    let whole = front + back;
    assert(whole.subrange(whole.len() - back.len(), whole.len() as int) =~= back);
}

/// Every line of a listing counts for itself: the handles of two listings, one
/// behind the other, are those of the one and those of the other.
pub proof fn listings_add_up(a: Seq<Seq<char>>, b: Seq<Seq<char>>, marker: Seq<char>)
    ensures
        handles_in_lines(a + b, marker) == handles_in_lines(a, marker) + handles_in_lines(
            b,
            marker,
        ),
    decreases b.len(),
{
    if b.len() == 0 {
        assert(a + b =~= a);
        assert(handles_in_lines(a, marker) + handles_in_lines(b, marker) =~= handles_in_lines(
            a,
            marker,
        ));
    } else {
        listings_add_up(a, b.drop_last(), marker);
        assert((a + b).drop_last() =~= a + b.drop_last());
        assert(handles_in_lines(a + b, marker) =~= handles_in_lines(a, marker) + handles_in_lines(
            b,
            marker,
        ));
    }
}

/// A listing without the marker yields no handles.
pub proof fn unmarked_listings_yield_nothing(lines: Seq<Seq<char>>, marker: Seq<char>)
    requires
        forall|i: int| 0 <= i < lines.len() ==> !text::has_part(#[trigger] lines[i], marker),
    ensures
        handles_in_lines(lines, marker).len() == 0,
{
    let found = handles_in_lines(lines, marker);
    if found.len() > 0 {
        assert(found.contains(found[0]));
        only_marked_lines_count(lines, marker, found[0]);
    }
}

/// A script that could not be run is told by how far it had got, with the words
/// that came with the failure at the end; one that could not even be started is
/// told like a command.
pub proof fn failed_phases_are_told_apart(phase: RunPhase, not_found: bool, message: Seq<char>)
    ensures
        ({
            let reply = ReplyView::Failed { phase, not_found, message };
            &&& script_outcome(reply) matches Outcome::Refused { error }
            &&& phase == RunPhase::Start ==> script_outcome(reply) == command_outcome(reply, true)
            &&& phase != RunPhase::Start ==> text::finishes_with(error, message)
            &&& text::begins_with(error, "stdin write failed: "@) <==> phase == RunPhase::Write
            &&& text::begins_with(error, "nft wait failed: "@) <==> phase == RunPhase::Wait
        }),
{
    reveal_strlit("stdin write failed: ");
    reveal_strlit("nft wait failed: ");
    reveal_strlit("nft command not found");
    reveal_strlit("failed to run nft: ");
    let reply = ReplyView::Failed { phase, not_found, message };
    let error = script_outcome(reply)->error;
    let front = match phase {
        RunPhase::Start => if not_found {
            "nft command not found"@
        } else {
            "failed to run nft: "@
        },
        RunPhase::Write => "stdin write failed: "@,
        RunPhase::Wait => "nft wait failed: "@,
    };
    let n = front.len() as int;
    assert(error.subrange(0, n) =~= front);
    if phase != RunPhase::Start {
        assert(error.subrange(n, error.len() as int) =~= message);
    }
    assert(error[0] == front[0] && error[4] == front[4]);
    if text::begins_with(error, "stdin write failed: "@) {
        assert(error.subrange(0, 20)[0] == 's');
    }
    if text::begins_with(error, "nft wait failed: "@) {
        assert(error.subrange(0, 17)[0] == 'n');
        assert(error.subrange(0, 17)[4] == 'w');
    }
}

} // verus!
