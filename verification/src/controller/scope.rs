//! Scopes: which rules belong to whom, and how a rule says so in its comment.

use vstd::prelude::*;

use crate::decimal;
use crate::decimal::append_decimal;
use crate::scan;
use crate::text;
use crate::text::replace_char;

verus! {

/// Whose traffic an operation is about.
#[derive(Clone, Copy, Debug, PartialEq, Eq, Structural)]
pub enum Target {
    Process { pid: u32 },
    Thread { pid: u32, tid: u32 },
    User { uid: u32 },
}

/// What is done to that traffic.  The two have scopes of their own, so that
/// one can be undone without the other.
#[derive(Clone, Copy, Debug, PartialEq, Eq, Structural)]
pub enum Control {
    Block,
    Limit,
}

/// The key of the scope with the given kind and identity.
pub open spec fn key_text(kind: Seq<char>, id: Seq<char>) -> Seq<char> {
    kind + ":"@ + id
}

/// What the comment of every rule of a scope begins with.
pub open spec fn marker_text(key: Seq<char>) -> Seq<char> {
    "netmon-"@ + key + "-"@
}

/// The comment of a rule: the marker of its scope, and a label in which
/// quotation marks are written as underscores.
pub open spec fn comment_text(key: Seq<char>, label: Seq<char>) -> Seq<char> {
    marker_text(key) + text::replaced(label, '"', "_"@)
}

/// The kind of the scope in which `control` of `target` is kept.
pub open spec fn kind_text(target: Target, control: Control) -> Seq<char> {
    match (target, control) {
        (Target::Process { .. }, Control::Block) => "proc"@,
        (Target::Thread { .. }, Control::Block) => "thread"@,
        (Target::User { .. }, Control::Block) => "user"@,
        (Target::Process { .. }, Control::Limit) => "rate-proc"@,
        (Target::Thread { .. }, Control::Limit) => "rate-thread"@,
        (Target::User { .. }, Control::Limit) => "rate-user"@,
    }
}

/// What tells a target from the others of its kind.
pub open spec fn id_text(target: Target) -> Seq<char> {
    match target {
        Target::Process { pid } => decimal::decimal(pid as nat),
        Target::Thread { pid, tid } => decimal::decimal(pid as nat) + ":"@ + decimal::decimal(tid as nat),
        Target::User { uid } => decimal::decimal(uid as nat),
    }
}

/// The key of the scope in which `control` of `target` is kept.
pub open spec fn target_key(target: Target, control: Control) -> Seq<char> {
    key_text(kind_text(target, control), id_text(target))
}

/// The key of the scope with the given kind and identity.
pub fn scope_key(kind: &str, id: &str) -> (key: String)
    ensures
        key@ == key_text(kind@, id@),
{
    let mut key = String::new();
    key.append(kind);
    key.append(":");
    key.append(id);
    assert(key@ =~= key_text(kind@, id@));
    key
}

/// What the comment of every rule of the scope begins with.
pub fn scope_marker(scope_key: &str) -> (marker: String)
    ensures
        marker@ == marker_text(scope_key@),
{
    let mut marker = String::new();
    marker.append("netmon-");
    marker.append(scope_key);
    marker.append("-");
    assert(marker@ =~= marker_text(scope_key@));
    marker
}

/// The comment of a rule of the scope.
pub fn scoped_comment(scope_key: &str, label: &str) -> (comment: String)
    ensures
        comment@ == comment_text(scope_key@, label@),
{
    let mut comment = scope_marker(scope_key);
    let safe = replace_char(label, '"', "_");
    comment.append(safe.as_str());
    comment
}

/// The key of the scope in which `control` of `target` is kept.
pub fn key_of(target: Target, control: Control) -> (key: String)
    ensures
        key@ == target_key(target, control),
{
    let mut id = String::new();
    let kind = match target {
        Target::Process { pid } => {
            append_decimal(&mut id, pid as u64);
            match control {
                Control::Block => "proc",
                Control::Limit => "rate-proc",
            }
        },
        Target::Thread { pid, tid } => {
            append_decimal(&mut id, pid as u64);
            id.append(":");
            append_decimal(&mut id, tid as u64);
            match control {
                Control::Block => "thread",
                Control::Limit => "rate-thread",
            }
        },
        Target::User { uid } => {
            append_decimal(&mut id, uid as u64);
            match control {
                Control::Block => "user",
                Control::Limit => "rate-user",
            }
        },
    };
    assert(id@ =~= id_text(target));
    scope_key(kind, id.as_str())
}

/// Every comment of a scope begins with the marker of that scope, so looking
/// for the marker finds the rules of the scope.
pub proof fn comment_carries_marker(key: Seq<char>, label: Seq<char>)
    ensures
        text::begins_with(comment_text(key, label), marker_text(key)),
        text::has_part(comment_text(key, label), marker_text(key)),
{
    let comment = comment_text(key, label);
    let marker = marker_text(key);
    assert(comment.subrange(0, marker.len() as int) =~= marker);
    assert(text::occurs_at(comment, marker, 0));
}

/// Where the key holds no quotation mark, the comment holds none either.
proof fn comment_holds_no_quote(key: Seq<char>, label: Seq<char>)
    requires
        !key.contains('"'),
    ensures
        !comment_text(key, label).contains('"'),
{
    reveal_strlit("netmon-");
    reveal_strlit("-");
    reveal_strlit("_");
    let comment = comment_text(key, label);
    let marker = marker_text(key);
    if comment.contains('"') {
        let i = choose|i: int| 0 <= i < comment.len() && comment[i] == '"';
        if i < marker.len() {
            assert(marker[i] == '"');
            if 7 <= i < 7 + key.len() {
                assert(key[i - 7] == '"');
            }
        } else {
            let safe = text::replaced(label, '"', "_"@);
            assert(safe[i - marker.len()] == '"');
            text::replaced_holds_only(label, '"', "_"@, '"');
        }
    }
}

proof fn id_is_plain(target: Target)
    ensures
        id_text(target).len() > 0,
        forall|i: int|
            0 <= i < id_text(target).len() ==> '0' <= #[trigger] id_text(target)[i] <= ':',
{
    reveal_strlit(":");
    match target {
        Target::Process { pid } => {
            decimal::decimal_is_digits(pid as nat);
        },
        Target::Thread { pid, tid } => {
            decimal::decimal_is_digits(pid as nat);
            decimal::decimal_is_digits(tid as nat);
        },
        Target::User { uid } => {
            decimal::decimal_is_digits(uid as nat);
        },
    }
}

proof fn key_is_plain(target: Target, control: Control)
    ensures
        forall|i: int|
            0 <= i < target_key(target, control).len() ==> #[trigger] target_key(target, control)[i]
                != 'n' && target_key(target, control)[i] != '"',
        control == Control::Block ==> !target_key(target, control).contains('-'),
        control == Control::Limit ==> target_key(target, control).take(5) == "rate-"@
            && !target_key(target, control).skip(5).contains('-'),
        target_key(target, control).len() > 5,
        target_key(target, control)[0] == 'r' <==> control == Control::Limit,
{
    reveal_strlit("proc");
    reveal_strlit("thread");
    reveal_strlit("user");
    reveal_strlit("rate-proc");
    reveal_strlit("rate-thread");
    reveal_strlit("rate-user");
    reveal_strlit("rate-");
    reveal_strlit(":");
    id_is_plain(target);
    let kind = kind_text(target, control);
    let id = id_text(target);
    let key = target_key(target, control);
    assert forall|i: int| kind.len() <= i < key.len() implies '0' <= #[trigger] key[i] <= ':' by {
        if i > kind.len() {
            assert(key[i] == id[i - kind.len() - 1]);
        }
    }
    assert forall|i: int| 0 <= i < key.len() implies #[trigger] key[i] != 'n' && key[i] != '"' by {
        if i < kind.len() {
            assert(key[i] == kind[i]);
        }
    }
    assert(key[0] == kind[0]);
    if control == Control::Limit {
        assert(key.take(5) =~= "rate-"@);
        if key.skip(5).contains('-') {
            let i = choose|i: int| 0 <= i < key.skip(5).len() && key.skip(5)[i] == '-';
            assert(key[i + 5] == '-');
            assert(i + 5 < kind.len());
            assert(kind[i + 5] == '-');
        }
    } else if key.contains('-') {
        let i = choose|i: int| 0 <= i < key.len() && key[i] == '-';
        assert(i < kind.len());
        assert(kind[i] == '-');
    }
}

/// No label can end the quoted comment of a rule early: the comments of all
/// targets are without quotation marks.
pub proof fn comments_stay_closed(target: Target, control: Control, label: Seq<char>)
    ensures
        !comment_text(target_key(target, control), label).contains('"'),
{
    key_is_plain(target, control);
    comment_holds_no_quote(target_key(target, control), label);
}

/// Where two texts without a mark in front of the first mark agree, the fronts
/// agree.
proof fn fronts_agree(a: Seq<char>, b: Seq<char>, mark: char, x: Seq<char>, y: Seq<char>)
    requires
        !a.contains(mark),
        !b.contains(mark),
        a + seq![mark] + x == b + seq![mark] + y,
    ensures
        a == b,
        x == y,
{
    let left = a + seq![mark] + x;
    let right = b + seq![mark] + y;
    if a.len() < b.len() {
        assert(left[a.len() as int] == mark);
        assert(right[a.len() as int] == b[a.len() as int]);
        assert(b.contains(mark));
    } else if b.len() < a.len() {
        assert(right[b.len() as int] == mark);
        assert(left[b.len() as int] == a[b.len() as int]);
        assert(a.contains(mark));
    }
    assert(a =~= left.take(a.len() as int));
    assert(b =~= right.take(b.len() as int));
    assert(x =~= left.skip(a.len() as int + 1));
    assert(y =~= right.skip(b.len() as int + 1));
}

proof fn no_colon_in_kind(target: Target, control: Control)
    ensures
        !kind_text(target, control).contains(':'),
{
    reveal_strlit("proc");
    reveal_strlit("thread");
    reveal_strlit("user");
    reveal_strlit("rate-proc");
    reveal_strlit("rate-thread");
    reveal_strlit("rate-user");
}

proof fn no_colon_in_decimal(n: nat)
    ensures
        !decimal::decimal(n).contains(':'),
{
    decimal::decimal_is_digits(n);
}

/// Different controls and targets have different scopes: what is kept under
/// one key is never touched under another.
pub proof fn keys_tell_targets_apart(
    target: Target,
    control: Control,
    other_target: Target,
    other_control: Control,
)
    requires
        target_key(target, control) == target_key(other_target, other_control),
    ensures
        target == other_target,
        control == other_control,
{
    reveal_strlit(":");
    let kind = kind_text(target, control);
    let other_kind = kind_text(other_target, other_control);
    no_colon_in_kind(target, control);
    no_colon_in_kind(other_target, other_control);
    assert(":"@ =~= seq![':']);
    fronts_agree(kind, other_kind, ':', id_text(target), id_text(other_target));
    reveal_strlit("proc");
    reveal_strlit("thread");
    reveal_strlit("user");
    reveal_strlit("rate-proc");
    reveal_strlit("rate-thread");
    reveal_strlit("rate-user");
    assert(kind.len() == other_kind.len());
    assert(kind[0] == other_kind[0]);
    assert(kind.len() > 5 ==> kind[5] == other_kind[5]);
    match (target, other_target) {
        (Target::Process { pid }, Target::Process { pid: other }) => {
            decimal::decimal_tells_apart(pid as nat, other as nat);
        },
        (Target::Thread { pid, tid }, Target::Thread { pid: other_pid, tid: other_tid }) => {
            no_colon_in_decimal(pid as nat);
            no_colon_in_decimal(other_pid as nat);
            fronts_agree(
                decimal::decimal(pid as nat),
                decimal::decimal(other_pid as nat),
                ':',
                decimal::decimal(tid as nat),
                decimal::decimal(other_tid as nat),
            );
            decimal::decimal_tells_apart(pid as nat, other_pid as nat);
            decimal::decimal_tells_apart(tid as nat, other_tid as nat);
        },
        (Target::User { uid }, Target::User { uid: other }) => {
            decimal::decimal_tells_apart(uid as nat, other as nat);
        },
        _ => {},
    }
}

/// A marker at the very beginning of a comment is the marker of its scope.
proof fn marker_in_front(
    target: Target,
    control: Control,
    other_target: Target,
    other_control: Control,
    rest: Seq<char>,
)
    requires
        text::begins_with(
            marker_text(target_key(other_target, other_control)) + rest,
            marker_text(target_key(target, control)),
        ),
    ensures
        target == other_target,
        control == other_control,
{
    let key = target_key(target, control);
    let other = target_key(other_target, other_control);
    let marker = marker_text(key);
    let comment = marker_text(other) + rest;
    reveal_strlit("netmon-");
    reveal_strlit("-");
    key_is_plain(target, control);
    key_is_plain(other_target, other_control);
    assert forall|i: int| 0 <= i < marker.len() implies comment[i] == #[trigger] marker[i] by {
        assert(comment.subrange(0, marker.len() as int)[i] == comment[i]);
    }
    assert(marker[7] == key[0] && comment[7] == other[0]);
    assert(control == other_control);
    let head: int = if control == Control::Limit { 5 } else { 0 };
    assert forall|i: int| head <= i < key.len() implies key[i] != '-' by {
        if control == Control::Limit {
            assert(key.skip(5)[i - 5] == key[i]);
        }
    }
    assert forall|i: int| head <= i < other.len() implies other[i] != '-' by {
        if control == Control::Limit {
            assert(other.skip(5)[i - 5] == other[i]);
        }
    }
    assert(marker[key.len() as int + 7] == '-');
    assert(comment[other.len() as int + 7] == '-');
    if key.len() < other.len() {
        assert(comment[key.len() as int + 7] == other[key.len() as int]);
    } else if other.len() < key.len() {
        assert(marker[other.len() as int + 7] == key[other.len() as int]);
    }
    assert forall|i: int| 0 <= i < key.len() implies key[i] == other[i] by {
        assert(marker[i + 7] == key[i]);
        assert(comment[i + 7] == other[i]);
    }
    assert(key =~= other);
    keys_tell_targets_apart(target, control, other_target, other_control);
}

/// A marker that stands behind the beginning of a comment stands in its label.
proof fn marker_in_label(
    key: Seq<char>,
    other_target: Target,
    other_control: Control,
    rest: Seq<char>,
    at: int,
)
    requires
        text::occurs_at(
            marker_text(target_key(other_target, other_control)) + rest,
            marker_text(key),
            at,
        ),
        at > 0,
    ensures
        text::has_part(rest, marker_text(key)),
{
    let other = target_key(other_target, other_control);
    let marker = marker_text(key);
    let front = marker_text(other);
    let comment = front + rest;
    reveal_strlit("netmon-");
    reveal_strlit("-");
    key_is_plain(other_target, other_control);
    assert(comment.subrange(at, at + marker.len())[0] == comment[at]);
    assert(comment.subrange(at, at + marker.len())[1] == comment[at + 1]);
    assert(marker[0] == 'n' && marker[1] == 'e');
    if at < 7 {
        assert(comment[at] == "netmon-"@[at]);
        assert(at == 5);
        assert(comment[6] == "netmon-"@[6]);
    } else if at < other.len() + 7 {
        assert(comment[at] == other[at - 7]);
    } else if at == other.len() + 7 {
        assert(comment[at] == '-');
    }
    let place = at - front.len();
    assert(rest.subrange(place, place + marker.len()) =~= comment.subrange(
        at,
        at + marker.len(),
    ));
    assert(text::occurs_at(rest, marker, place));
}

/// Looking for the marker of one scope never finds a rule of another, unless
/// the label of that rule spells the marker out.
pub proof fn scopes_do_not_mix(
    target: Target,
    control: Control,
    other_target: Target,
    other_control: Control,
    label: Seq<char>,
)
    requires
        target != other_target || control != other_control,
        !text::has_part(
            text::replaced(label, '"', "_"@),
            marker_text(target_key(target, control)),
        ),
    ensures
        !text::has_part(
            comment_text(target_key(other_target, other_control), label),
            marker_text(target_key(target, control)),
        ),
{
    let key = target_key(target, control);
    let rest = text::replaced(label, '"', "_"@);
    let comment = comment_text(target_key(other_target, other_control), label);
    if text::has_part(comment, marker_text(key)) {
        let at = choose|at: int| text::occurs_at(comment, marker_text(key), at);
        if at == 0 {
            marker_in_front(target, control, other_target, other_control, rest);
        } else {
            marker_in_label(key, other_target, other_control, rest, at);
        }
    }
}

/// A comment keeps its label: behind the marker stands the label, character by
/// character, with underscores for quotation marks.
pub proof fn comments_keep_their_label(key: Seq<char>, label: Seq<char>)
    ensures
        ({
            let comment = comment_text(key, label);
            let front = "netmon-"@ + key + "-"@;
            &&& comment.len() == front.len() + label.len()
            &&& comment.take(front.len() as int) == front
            &&& forall|i: int|
                0 <= i < label.len() ==> #[trigger] comment[front.len() + i] == (if label[i] == '"' {
                    '_'
                } else {
                    label[i]
                })
        }),
{
    reveal_strlit("_");
    let front = "netmon-"@ + key + "-"@;
    assert("_"@ =~= seq!['_']);
    text::replacing_keeps_places(label, '"', '_');
    let kept = text::replaced(label, '"', "_"@);
    let comment = comment_text(key, label);
    assert(comment.take(front.len() as int) =~= front);
    assert forall|i: int| 0 <= i < label.len() implies #[trigger] comment[front.len() + i] == (
    if label[i] == '"' {
        '_'
    } else {
        label[i]
    }) by {
        assert(comment[front.len() + i] == kept[i]);
    }
}

/// The key of a scope reads back: between colons it holds what the target is
/// and its numbers, and the scope of a limit has the key of the blocking with
/// `rate-` before it.
pub proof fn keys_read_back(target: Target)
    ensures
        scan::fields(target_key(target, Control::Block), ':') == (match target {
            Target::Process { pid } => seq!["proc"@, decimal::decimal(pid as nat)],
            Target::Thread { pid, tid } => seq![
                "thread"@,
                decimal::decimal(pid as nat),
                decimal::decimal(tid as nat),
            ],
            Target::User { uid } => seq!["user"@, decimal::decimal(uid as nat)],
        }),
        target_key(target, Control::Limit) == "rate-"@ + target_key(target, Control::Block),
{
    reveal_strlit(":");
    reveal_strlit("proc");
    reveal_strlit("thread");
    reveal_strlit("user");
    reveal_strlit("rate-proc");
    reveal_strlit("rate-thread");
    reveal_strlit("rate-user");
    reveal_strlit("rate-");
    let key = target_key(target, Control::Block);
    let kind = kind_text(target, Control::Block);
    assert(":"@ =~= seq![':']);
    assert(target_key(target, Control::Limit) =~= "rate-"@ + key);
    no_colon_in_kind(target, Control::Block);
    scan::one_field(kind, ':');
    match target {
        Target::Process { pid } => {
            no_colon_in_decimal(pid as nat);
            scan::one_more_field(kind, ':', decimal::decimal(pid as nat));
            assert(key =~= kind + seq![':'] + decimal::decimal(pid as nat));
            assert(scan::fields(key, ':') =~= seq!["proc"@, decimal::decimal(pid as nat)]);
        },
        Target::Thread { pid, tid } => {
            no_colon_in_decimal(pid as nat);
            no_colon_in_decimal(tid as nat);
            let front = kind + seq![':'] + decimal::decimal(pid as nat);
            scan::one_more_field(kind, ':', decimal::decimal(pid as nat));
            scan::one_more_field(front, ':', decimal::decimal(tid as nat));
            assert(key =~= front + seq![':'] + decimal::decimal(tid as nat));
            assert(scan::fields(key, ':') =~= seq![
                "thread"@,
                decimal::decimal(pid as nat),
                decimal::decimal(tid as nat),
            ]);
        },
        Target::User { uid } => {
            no_colon_in_decimal(uid as nat);
            scan::one_more_field(kind, ':', decimal::decimal(uid as nat));
            assert(key =~= kind + seq![':'] + decimal::decimal(uid as nat));
            assert(scan::fields(key, ':') =~= seq!["user"@, decimal::decimal(uid as nat)]);
        },
    }
}

/// No line feed stands in a comment but those that its label brings.
pub proof fn comments_hold_no_line_feed(target: Target, control: Control, label: Seq<char>)
    requires
        !label.contains('\n'),
    ensures
        !comment_text(target_key(target, control), label).contains('\n'),
{
    reveal_strlit("netmon-");
    reveal_strlit("-");
    reveal_strlit(":");
    reveal_strlit("proc");
    reveal_strlit("thread");
    reveal_strlit("user");
    reveal_strlit("rate-proc");
    reveal_strlit("rate-thread");
    reveal_strlit("rate-user");
    let key = target_key(target, control);
    let kind = kind_text(target, control);
    let comment = comment_text(key, label);
    let front = "netmon-"@ + key + "-"@;
    comments_keep_their_label(key, label);
    id_is_plain(target);
    if comment.contains('\n') {
        let i = choose|i: int| 0 <= i < comment.len() && comment[i] == '\n';
        if i < front.len() {
            assert(comment.take(front.len() as int)[i] == '\n');
            assert(front[i] == '\n');
            if 7 <= i < 7 + key.len() {
                assert(key[i - 7] == '\n');
                if i - 7 < kind.len() {
                    assert(kind[i - 7] == '\n');
                } else if i - 7 > kind.len() {
                    assert(id_text(target)[i - 8 - kind.len()] == '\n');
                }
            }
        } else {
            let k = i - front.len();
            assert(comment[front.len() + k] == '\n');
            assert(label[k] == '\n');
        }
    }
}

} // verus!
