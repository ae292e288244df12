//! Whose the rules in a listing are, and which of them an operation deletes.

use vstd::prelude::*;

use crate::controller::laws;
use crate::controller::nft;
use crate::controller::operation;
use crate::controller::operation::{
    ActionView, EventView, GoalView, OperationView, StageView,
};
use crate::controller::rules;
use crate::controller::scope;
use crate::controller::scope::{Control, Target};
use crate::decimal;
use crate::scan;
use crate::text;

verus! {

/// A line of the listing of the chain.
pub enum ListedLine {
    /// The line of a rule: what nft prints of the rule, its comment, and its
    /// handle.
    Rule { front: Seq<char>, target: Target, control: Control, label: Seq<char>, handle: u64 },
    /// Any other line.
    Other { content: Seq<char> },
}

/// The characters of a line.
pub open spec fn line_of(line: ListedLine) -> Seq<char> {
    match line {
        ListedLine::Rule { front, target, control, label, handle } => front + rules::drop_text(
            scope::comment_text(scope::target_key(target, control), label),
        ) + " # handle "@ + decimal::decimal(handle as nat),
        ListedLine::Other { content } => content,
    }
}

/// The lines of a chain.
pub open spec fn listing_of(chain: Seq<ListedLine>) -> Seq<Seq<char>> {
    chain.map_values(|line: ListedLine| line_of(line))
}

/// The line is that of a rule of the scope.
pub open spec fn is_of_scope(line: ListedLine, target: Target, control: Control) -> bool {
    line matches ListedLine::Rule { target: own, control: own_control, .. } && own == target
        && own_control == control
}

/// The line is that of a rule of the scope, and the rule has the handle.
pub open spec fn is_rule(
    line: ListedLine,
    target: Target,
    control: Control,
    handle: u64,
) -> bool {
    is_of_scope(line, target, control) && line->handle == handle
}

/// The chain has a rule of the scope with the handle.
pub open spec fn has_rule(
    chain: Seq<ListedLine>,
    target: Target,
    control: Control,
    handle: u64,
) -> bool {
    exists|i: int| 0 <= i < chain.len() && is_rule(#[trigger] chain[i], target, control, handle)
}

/// The line is that of a rule of the scope, or the marker of the scope is not
/// spelled out in it: neither before the comment of a rule nor in its label, nor
/// in a line that is no rule's.
pub open spec fn spells_no_marker(line: ListedLine, target: Target, control: Control) -> bool {
    let marker = scope::marker_text(scope::target_key(target, control));
    match line {
        ListedLine::Rule { front, label, .. } => is_of_scope(line, target, control) || {
            &&& !text::has_part(front, marker)
            &&& !text::has_part(text::replaced(label, '"', "_"@), marker)
        },
        ListedLine::Other { content } => !text::has_part(content, marker),
    }
}

/// The marker of the scope is spelled out nowhere in the lines of the chain,
/// but for its own rules.
pub open spec fn marks_only_own(chain: Seq<ListedLine>, target: Target, control: Control) -> bool {
    forall|i: int| 0 <= i < chain.len() ==> spells_no_marker(#[trigger] chain[i], target, control)
}

/// No two rules of the chain have the same handle.
pub open spec fn handles_differ(chain: Seq<ListedLine>) -> bool {
    forall|i: int, j: int|
        0 <= i < chain.len() && 0 <= j < chain.len() && #[trigger] chain[i] is Rule
            && #[trigger] chain[j] is Rule && chain[i]->handle == chain[j]->handle ==> i == j
}

/// A part without quotation marks that stands in a text with a quotation mark
/// stands before the mark or behind it.
proof fn parts_do_not_cross_quotes(front: Seq<char>, back: Seq<char>, part: Seq<char>)
    requires
        !part.contains('"'),
        text::has_part(front + "\""@ + back, part),
    ensures
        text::has_part(front, part) || text::has_part(back, part),
{
    reveal_strlit("\"");
    let whole = front + "\""@ + back;
    let at = choose|at: int| text::occurs_at(whole, part, at);
    let mark = front.len() as int;
    if at + part.len() <= mark {
        assert(front.subrange(at, at + part.len()) =~= whole.subrange(at, at + part.len()));
        assert(text::occurs_at(front, part, at));
    } else if at > mark {
        let place = at - mark - 1;
        assert(back.subrange(place, place + part.len()) =~= whole.subrange(at, at + part.len()));
        assert(text::occurs_at(back, part, place));
    } else {
        assert(whole.subrange(at, at + part.len())[mark - at] == whole[mark]);
        assert(whole[mark] == '"');
        assert(part[mark - at] == '"');
    }
}

/// A part whose last character is not in the back of a text stands in its
/// front.
proof fn parts_end_in_front(front: Seq<char>, back: Seq<char>, part: Seq<char>)
    requires
        part.len() > 0,
        !back.contains(part.last()),
        text::has_part(front + back, part),
    ensures
        text::has_part(front, part),
{
    let whole = front + back;
    let at = choose|at: int| text::occurs_at(whole, part, at);
    let end = at + part.len() - 1;
    assert(whole.subrange(at, at + part.len())[part.len() - 1] == whole[end]);
    if end >= front.len() {
        assert(back[end - front.len()] == part.last());
    }
    assert(front.subrange(at, at + part.len()) =~= whole.subrange(at, at + part.len()));
    assert(text::occurs_at(front, part, at));
}

proof fn markers_hold_no_quote(target: Target, control: Control)
    ensures
        !scope::marker_text(scope::target_key(target, control)).contains('"'),
{
    let key = scope::target_key(target, control);
    let marker = scope::marker_text(key);
    let comment = scope::comment_text(key, Seq::empty());
    scope::comments_stay_closed(target, control, Seq::empty());
    if marker.contains('"') {
        let i = choose|i: int| 0 <= i < marker.len() && marker[i] == '"';
        assert(comment[i] == '"');
    }
}

/// A line with the comment of another scope yields no handle, as long as the
/// marker is spelled out neither in the label nor before or behind the comment.
pub proof fn comments_of_others_yield_nothing(
    front: Seq<char>,
    back: Seq<char>,
    target: Target,
    control: Control,
    other_target: Target,
    other_control: Control,
    label: Seq<char>,
)
    requires
        target != other_target || control != other_control,
        ({
            let marker = scope::marker_text(scope::target_key(target, control));
            &&& !text::has_part(front, marker)
            &&& !text::has_part(back, marker)
            &&& !text::has_part(text::replaced(label, '"', "_"@), marker)
        }),
    ensures
        ({
            let comment = scope::comment_text(
                scope::target_key(other_target, other_control),
                label,
            );
            let marker = scope::marker_text(scope::target_key(target, control));
            nft::handle_in_line(front + "\""@ + comment + "\""@ + back, marker) is None
        }),
{
    let comment = scope::comment_text(scope::target_key(other_target, other_control), label);
    let marker = scope::marker_text(scope::target_key(target, control));
    let line = front + "\""@ + comment + "\""@ + back;
    if text::has_part(line, marker) {
        markers_hold_no_quote(target, control);
        assert(line =~= front + "\""@ + (comment + "\""@ + back));
        parts_do_not_cross_quotes(front, comment + "\""@ + back, marker);
        parts_do_not_cross_quotes(comment, back, marker);
        scope::scopes_do_not_mix(target, control, other_target, other_control, label);
    }
}

/// The line of a rule of another scope yields no handle.
proof fn rules_of_others_yield_nothing(line: ListedLine, target: Target, control: Control)
    requires
        spells_no_marker(line, target, control),
        !is_of_scope(line, target, control),
    ensures
        nft::handle_in_line(
            line_of(line),
            scope::marker_text(scope::target_key(target, control)),
        ) is None,
{
    if let ListedLine::Rule { front, target: other, control: other_control, label, handle } = line {
        reveal_strlit("drop comment \"");
        reveal_strlit("drop comment ");
        reveal_strlit("\"");
        reveal_strlit("-");
        reveal_strlit(" # handle ");
        let marker = scope::marker_text(scope::target_key(target, control));
        let comment = scope::comment_text(scope::target_key(other, other_control), label);
        let before = front + "drop comment "@;
        let digits = decimal::decimal(handle as nat);
        let behind = " # handle "@ + digits;
        assert(marker.last() == '-');
        decimal::decimal_is_digits(handle as nat);
        if text::has_part(before, marker) {
            parts_end_in_front(front, "drop comment "@, marker);
        }
        if text::has_part(behind, marker) {
            if behind.contains('-') {
                let i = choose|i: int| 0 <= i < behind.len() && behind[i] == '-';
                assert(i >= 10 ==> behind[i] == digits[i - 10]);
            }
            assert(Seq::<char>::empty() + behind =~= behind);
            parts_end_in_front(Seq::empty(), behind, marker);
        }
        comments_of_others_yield_nothing(
            before,
            behind,
            target,
            control,
            other,
            other_control,
            label,
        );
        assert(line_of(line) =~= before + "\""@ + comment + "\""@ + behind);
    }
}

proof fn every_found_line_counts(lines: Seq<Seq<char>>, marker: Seq<char>, i: int, handle: u64)
    requires
        0 <= i < lines.len(),
        nft::handle_in_line(lines[i], marker) == Some(handle),
    ensures
        nft::handles_in_lines(lines, marker).contains(handle),
    decreases lines.len(),
{
    let front = nft::handles_in_lines(lines.drop_last(), marker);
    let whole = nft::handles_in_lines(lines, marker);
    if i == lines.len() - 1 {
        assert(whole[front.len() as int] == handle);
    } else {
        assert(lines.drop_last()[i] == lines[i]);
        every_found_line_counts(lines.drop_last(), marker, i, handle);
        let k = choose|k: int| 0 <= k < front.len() && front[k] == handle;
        assert(whole[k] == handle);
    }
}

/// A listing yields, for the marker of a scope, the handles of the rules of the
/// scope, and no others.
pub proof fn listings_yield_own_rules_only(
    chain: Seq<ListedLine>,
    target: Target,
    control: Control,
    handle: u64,
)
    requires
        marks_only_own(chain, target, control),
    ensures
        nft::handles_in_lines(
            listing_of(chain),
            scope::marker_text(scope::target_key(target, control)),
        ).contains(handle) <==> has_rule(chain, target, control, handle),
{
    let key = scope::target_key(target, control);
    let marker = scope::marker_text(key);
    let lines = listing_of(chain);
    if nft::handles_in_lines(lines, marker).contains(handle) {
        nft::only_marked_lines_count(lines, marker, handle);
        let i = choose|i: int|
            0 <= i < lines.len() && text::has_part(#[trigger] lines[i], marker)
                && nft::handle_in_line(lines[i], marker) == Some(handle);
        assert(lines[i] == line_of(chain[i]));
        if !is_of_scope(chain[i], target, control) {
            rules_of_others_yield_nothing(chain[i], target, control);
        }
        if let ListedLine::Rule { front, label, handle: own, .. } = chain[i] {
            laws::listed_rules_are_found(front, key, label, own);
        }
        assert(is_rule(chain[i], target, control, handle));
    }
    if has_rule(chain, target, control, handle) {
        let i = choose|i: int|
            0 <= i < chain.len() && is_rule(#[trigger] chain[i], target, control, handle);
        assert(lines[i] == line_of(chain[i]));
        if let ListedLine::Rule { front, label, .. } = chain[i] {
            laws::listed_rules_are_found(front, key, label, handle);
        }
        every_found_line_counts(lines, marker, i, handle);
    }
}

/// The goal is about the scope.
pub open spec fn is_about(goal: GoalView, target: Target, control: Control) -> bool {
    match goal {
        GoalView::Install { target: own, limit, .. } => own == target && operation::control_of(
            limit,
        ) == control,
        GoalView::Remove { target: own, control: own_control } => own == target && own_control
            == control,
        _ => false,
    }
}

/// What the operation is told of the earlier rules of its scope is true: the
/// registry gives it handles of such rules only, and the listing is that of the
/// chain.
pub open spec fn told_truly(
    operation: OperationView,
    event: EventView,
    chain: Seq<ListedLine>,
    target: Target,
    control: Control,
) -> bool {
    match (operation.stage, event) {
        (StageView::Take, EventView::Taken { handles: Some(list) }) => forall|i: int|
            0 <= i < list.len() ==> has_rule(chain, target, control, #[trigger] list[i]),
        (
            StageView::ListOld,
            EventView::Nft { reply: nft::ReplyView::Finished { success: true, stdout, .. } },
        ) => scan::lines(stdout) == listing_of(chain),
        _ => true,
    }
}

/// The rules that the operation still has to delete are rules of the scope.
pub open spec fn deletes_own(
    operation: OperationView,
    chain: Seq<ListedLine>,
    target: Target,
    control: Control,
) -> bool {
    operation.stage matches StageView::Delete { rest } ==> {
        &&& rest.len() > 0
        &&& forall|i: int|
            0 <= i < rest.len() ==> has_rule(chain, target, control, #[trigger] rest[i])
    }
}

proof fn steps_keep_to_own_rules(
    operation: OperationView,
    event: EventView,
    chain: Seq<ListedLine>,
    target: Target,
    control: Control,
)
    requires
        is_about(operation.goal, target, control),
        marks_only_own(chain, target, control),
        told_truly(operation, event, chain, target, control),
        deletes_own(operation, chain, target, control),
    ensures
        deletes_own(operation::step(operation, event), chain, target, control),
{
    let marker = scope::marker_text(scope::target_key(target, control));
    match (operation.stage, event) {
        (
            StageView::ListOld,
            EventView::Nft { reply: nft::ReplyView::Finished { success: true, stdout, .. } },
        ) => {
            let handles = nft::handles_in_lines(scan::lines(stdout), marker);
            assert forall|i: int| 0 <= i < handles.len() implies has_rule(
                chain,
                target,
                control,
                #[trigger] handles[i],
            ) by {
                assert(handles.contains(handles[i]));
                listings_yield_own_rules_only(chain, target, control, handles[i]);
            }
        },
        (StageView::Delete { rest }, EventView::Nft { .. }) => {
            assert forall|i: int| 0 <= i < rest.drop_first().len() implies has_rule(
                chain,
                target,
                control,
                #[trigger] rest.drop_first()[i],
            ) by {
                assert(rest.drop_first()[i] == rest[i + 1]);
            }
        },
        _ => {},
    }
}

/// Whatever an operation still has to delete, at any moment from its beginning
/// on, is a rule of its own scope.
pub proof fn operations_keep_to_own_rules(
    start: OperationView,
    events: Seq<EventView>,
    n: int,
    chain: Seq<ListedLine>,
    target: Target,
    control: Control,
)
    requires
        0 <= n <= events.len(),
        is_about(start.goal, target, control),
        !(start.stage is Delete),
        marks_only_own(chain, target, control),
        forall|k: int|
            0 <= k < events.len() ==> told_truly(
                laws::run(start, events.take(k)),
                #[trigger] events[k],
                chain,
                target,
                control,
            ),
    ensures
        laws::run(start, events.take(n)).goal == start.goal,
        deletes_own(laws::run(start, events.take(n)), chain, target, control),
    decreases n,
{
    if n > 0 {
        operations_keep_to_own_rules(start, events, n - 1, chain, target, control);
        assert(events.take(n).drop_last() =~= events.take(n - 1));
        assert(events.take(n).last() == events[n - 1]);
        steps_keep_to_own_rules(
            laws::run(start, events.take(n - 1)),
            events[n - 1],
            chain,
            target,
            control,
        );
    }
}

/// An operation on one scope deletes no rule of another: at no moment is the
/// deletion of such a rule what it has done.
#[verifier::rlimit(40)]
pub proof fn rules_of_others_are_spared(
    start: OperationView,
    events: Seq<EventView>,
    n: int,
    chain: Seq<ListedLine>,
    target: Target,
    control: Control,
    other: int,
)
    requires
        0 <= n <= events.len(),
        is_about(start.goal, target, control),
        !(start.stage is Delete),
        marks_only_own(chain, target, control),
        handles_differ(chain),
        forall|k: int|
            0 <= k < events.len() ==> told_truly(
                laws::run(start, events.take(k)),
                #[trigger] events[k],
                chain,
                target,
                control,
            ),
        0 <= other < chain.len(),
        chain[other] is Rule,
        !is_of_scope(chain[other], target, control),
    ensures
        operation::next_action(laws::run(start, events.take(n))) != (ActionView::RunCommand {
            args: rules::delete_rule_words(chain[other]->handle),
        }),
{
    operations_keep_to_own_rules(start, events, n, chain, target, control);
    let now = laws::run(start, events.take(n));
    let handle = chain[other]->handle;
    let words = rules::delete_rule_words(handle);
    if operation::next_action(now) == (ActionView::RunCommand { args: words }) {
        assert(words.len() == 7);
        assert(now.stage is Delete);
        let first = now.stage->rest[0];
        assert(rules::delete_rule_words(first)[6] == words[6]);
        decimal::decimal_tells_apart(first as nat, handle as nat);
        assert(has_rule(chain, target, control, first));
        let own = choose|i: int|
            0 <= i < chain.len() && is_rule(#[trigger] chain[i], target, control, first);
        assert(chain[own] is Rule && chain[other] is Rule);
        assert(own == other);
    }
}

/// A removal forgets what was kept for its scope, and nothing else: afterwards
/// nothing is kept for the scope, and for every other scope, the blocking of
/// the same target among them, what was kept before.
pub proof fn removals_forget_their_scope_only(
    target: Target,
    control: Control,
    registry: Map<Seq<char>, Seq<u64>>,
    other_target: Target,
    other_control: Control,
)
    requires
        target != other_target || control != other_control,
    ensures
        ({
            let after = operation::settled_registry(
                operation::removing(target, control),
                registry,
            );
            let key = scope::target_key(target, control);
            let other = scope::target_key(other_target, other_control);
            &&& !after.dom().contains(key)
            &&& after.dom().contains(other) == registry.dom().contains(other)
            &&& registry.dom().contains(other) ==> after[other] == registry[other]
        }),
{
    if scope::target_key(target, control) == scope::target_key(other_target, other_control) {
        scope::keys_tell_targets_apart(target, control, other_target, other_control);
    }
}

/// A removal turns to the registry once, at its beginning: after any answer it
/// leaves the registry as it is.
pub proof fn removals_turn_to_the_registry_once(
    operation: OperationView,
    event: EventView,
    registry: Map<Seq<char>, Seq<u64>>,
)
    requires
        operation.goal is Remove,
        operation::consistent(operation),
        operation::answers(operation::next_action(operation), event),
    ensures
        ({
            let next = operation::step(operation, event);
            &&& !(next.stage is Take)
            &&& operation::settled_registry(next, registry) == registry
        }),
{
    operation::step_is_consistent(operation, event);
}

} // verus!
