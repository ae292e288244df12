//! What the machine says of itself: whether it is virtual, where the user is at
//! home, and what the process may do.

use vstd::prelude::*;

use crate::decimal;
use crate::decimal::parse_number;
use crate::scan;
use crate::scan::{fields_of, lines_of, words_of};
use crate::text;
use crate::text::{chars_of, stands_at, string_of, text_contains};

verus! {

/// The lower case of a text, as `str::to_lowercase` gives it.
pub uninterp spec fn lowercase(content: Seq<char>) -> Seq<char>;

/// `str::to_lowercase` turns a text into its lower case.  Which characters that
/// changes, and into what, is not said here; the same text has always the same
/// lower case.
#[verifier::external_body]
fn to_lowercase(content: &str) -> (lower: String)
    ensures
        lower@ == lowercase(content@),
{
    content.to_lowercase()
}

/// Names, in lower case, that a machine of VirtualBox has.
pub open spec fn names_virtualbox(host: Seq<char>, product: Seq<char>) -> bool {
    text::has_part(host, "vbox"@) || text::has_part(product, "virtualbox"@)
}

/// A text, or an empty one where there is none.
pub open spec fn or_empty(content: Option<&str>) -> Seq<char> {
    match content {
        Some(text) => text@,
        None => Seq::empty(),
    }
}

/// Whether names, in lower case, are those of a machine of VirtualBox.
pub fn is_virtualbox(host: &str, product: &str) -> (yes: bool)
    ensures
        yes == names_virtualbox(host@, product@),
{
    text_contains(host, "vbox") || text_contains(product, "virtualbox")
}

/// Whether the names of the host and of the product, where they could be read,
/// are those of a machine of VirtualBox.
pub fn detect_virtualbox(host: Option<&str>, product: Option<&str>) -> (yes: bool)
    ensures
        yes == names_virtualbox(lowercase(or_empty(host)), lowercase(or_empty(product))),
{
    let host_name = match host {
        Some(name) => to_lowercase(name),
        None => to_lowercase(""),
    };
    let product_name = match product {
        Some(name) => to_lowercase(name),
        None => to_lowercase(""),
    };
    proof {
        reveal_strlit("");
        assert(""@ =~= Seq::<char>::empty());
    }
    is_virtualbox(host_name.as_str(), product_name.as_str())
}

/// The home directory of a user in the lines of `/etc/passwd`: the sixth field
/// of the first line that has so many and begins with the user's name.
pub open spec fn home_in_lines(lines: Seq<Seq<char>>, user: Seq<char>) -> Option<Seq<char>>
    decreases lines.len(),
{
    if lines.len() == 0 {
        None
    } else {
        let fields = scan::fields(lines[0], ':');
        if fields.len() >= 6 && fields[0] == user {
            Some(fields[5])
        } else {
            home_in_lines(lines.drop_first(), user)
        }
    }
}

/// The directory in which the user is at home: that of the user who became
/// another one, as far as the list of users tells, and else the one that is
/// set, or the directory for temporary files.
pub open spec fn home_text(
    sudo_user: Option<Seq<char>>,
    passwd: Option<Seq<char>>,
    home: Option<Seq<char>>,
) -> Seq<char> {
    let listed = match (sudo_user, passwd) {
        (Some(user), Some(users)) => home_in_lines(scan::lines(users), user),
        _ => None,
    };
    match listed {
        Some(directory) => directory,
        None => match home {
            Some(directory) => directory,
            None => "/tmp"@,
        },
    }
}

fn same_chars(a: &Vec<char>, b: &Vec<char>) -> (yes: bool)
    ensures
        yes == (a@ == b@),
{
    if a.len() != b.len() {
        return false;
    }
    assert(a@.subrange(0, b@.len() as int) =~= a@);
    stands_at(a, b, 0)
}

fn find_home(passwd: &str, user: &str) -> (home: Option<String>)
    ensures
        match home {
            Some(directory) => home_in_lines(scan::lines(passwd@), user@) == Some(directory@),
            None => home_in_lines(scan::lines(passwd@), user@) is None,
        },
{
    let lines = lines_of(&chars_of(passwd));
    let wanted = chars_of(user);
    let ghost all = scan::lines(passwd@);
    let mut i: usize = 0;
    assert(all.skip(0) =~= all);
    while i < lines.len()
        invariant
            i <= lines@.len(),
            all == text::rows(lines@),
            all == scan::lines(passwd@),
            wanted@ == user@,
            home_in_lines(all.skip(i as int), user@) == home_in_lines(all, user@),
        decreases lines@.len() - i,
    {
        let ghost rest = all.skip(i as int);
        assert(rest[0] == lines@[i as int]@);
        let fields = fields_of(&lines[i], ':');
        assert(text::rows(fields@).len() == fields@.len());
        if fields.len() >= 6 {
            assert(text::rows(fields@)[0] == fields@[0]@);
            assert(text::rows(fields@)[5] == fields@[5]@);
            if same_chars(&fields[0], &wanted) {
                let home = string_of(&fields[5], 0, fields[5].len());
                assert(home@ =~= fields@[5]@);
                return Some(home);
            }
        }
        assert(rest.drop_first() =~= all.skip(i + 1));
        i += 1;
    }
    None
}

/// The directory in which the user is at home.
pub fn get_user_home(
    sudo_user: Option<&str>,
    passwd: Option<&str>,
    home: Option<&str>,
) -> (directory: String)
    ensures
        directory@ == home_text(
            text::optional_str(sudo_user),
            text::optional_str(passwd),
            text::optional_str(home),
        ),
{
    if let Some(user) = sudo_user {
        if let Some(users) = passwd {
            if let Some(directory) = find_home(users, user) {
                return directory;
            }
        }
    }
    match home {
        Some(directory) => directory.to_owned(),
        None => "/tmp".to_owned(),
    }
}

/// Whoever became the superuser is still at home at the own home: where the
/// list of users has it, neither the superuser's home nor any other counts.
pub proof fn home_survives_sudo(
    user: Seq<char>,
    passwd: Seq<char>,
    own: Seq<char>,
    home: Option<Seq<char>>,
)
    requires
        home_in_lines(scan::lines(passwd), user) == Some(own),
    ensures
        home_text(Some(user), Some(passwd), home) == own,
{
}

/// The bit at a place of a number is set.
pub open spec fn bit(n: u64, place: u64) -> bool {
    (n >> place) & 1 == 1
}

/// The effective capabilities in the lines of the status of a process: the
/// hexadecimal number that is the second word of the first line that begins
/// with `CapEff:`.
pub open spec fn capabilities_in_lines(lines: Seq<Seq<char>>) -> Option<u64>
    decreases lines.len(),
{
    if lines.len() == 0 {
        None
    } else if text::begins_with(lines[0], "CapEff:"@) {
        let words = scan::words(lines[0]);
        if words.len() < 2 {
            None
        } else {
            match decimal::parsed(words[1], 16, 0xffff_ffff_ffff_ffff) {
                Some(set) => Some(set as u64),
                None => None,
            }
        }
    } else {
        capabilities_in_lines(lines.drop_first())
    }
}

fn effective_capabilities(status: &str) -> (set: Option<u64>)
    ensures
        set == capabilities_in_lines(scan::lines(status@)),
{
    let lines = lines_of(&chars_of(status));
    let heading = chars_of("CapEff:");
    let ghost all = scan::lines(status@);
    let mut i: usize = 0;
    assert(all.skip(0) =~= all);
    while i < lines.len()
        invariant
            i <= lines@.len(),
            all == text::rows(lines@),
            all == scan::lines(status@),
            heading@ == "CapEff:"@,
            capabilities_in_lines(all.skip(i as int)) == capabilities_in_lines(all),
        decreases lines@.len() - i,
    {
        let ghost rest = all.skip(i as int);
        assert(rest[0] == lines@[i as int]@);
        if stands_at(&lines[i], &heading, 0) {
            let words = words_of(&lines[i]);
            assert(text::rows(words@).len() == words@.len());
            if words.len() < 2 {
                return None;
            }
            assert(text::rows(words@)[1] == words@[1]@);
            return parse_number(&words[1], 16, 0xffff_ffff_ffff_ffff);
        }
        assert(rest.drop_first() =~= all.skip(i + 1));
        i += 1;
    }
    None
}

/// Whether a process with this status, where it could be read, may administer
/// the network and read raw packets: its effective capabilities hold the bits
/// for both, the twelfth and the thirteenth, counted from zero.
pub fn has_required_capabilities(status: Option<&str>) -> (yes: bool)
    ensures
        yes == (status is Some && (capabilities_in_lines(scan::lines(status->0@)) matches Some(set)
            && bit(set, 12) && bit(set, 13))),
{
    let set: u64 = match status {
        Some(content) => {
            match effective_capabilities(content) {
                Some(set) => set,
                None => {
                    return false;
                },
            }
        },
        None => {
            return false;
        },
    };
    let cap_net_admin: u64 = 0x1000;
    let cap_net_raw: u64 = 0x2000;
    assert((set & 0x1000u64 != 0) == ((set >> 12u64) & 1 == 1)) by (bit_vector);
    assert((set & 0x2000u64 != 0) == ((set >> 13u64) & 1 == 1)) by (bit_vector);
    (set & cap_net_admin) != 0 && (set & cap_net_raw) != 0
}

/// Whether the program may go on: it belongs to the superuser, or has the
/// capabilities that it needs.
pub fn ensure_privileges(is_root: bool, status: Option<&str>) -> (result: Result<(), String>)
    ensures
        result is Ok <==> is_root || (status is Some && (capabilities_in_lines(
            scan::lines(status->0@),
        ) matches Some(set) && bit(set, 12) && bit(set, 13))),
        result matches Err(message) ==> message@
            == "Insufficient privileges. Run as root or grant CAP_NET_RAW and CAP_NET_ADMIN to this binary."@,
{
    if is_root || has_required_capabilities(status) {
        Ok(())
    } else {
        Err(
            "Insufficient privileges. Run as root or grant CAP_NET_RAW and CAP_NET_ADMIN to this binary.".to_owned(),
        )
    }
}

/// The name of the host or the name of the product is enough, wherever in it
/// the word stands; without either there is no such machine.
pub proof fn either_name_tells_virtualbox(front: Seq<char>, back: Seq<char>, other: Seq<char>)
    ensures
        names_virtualbox(front + "vbox"@ + back, other),
        names_virtualbox(other, front + "virtualbox"@ + back),
        !text::has_part(front, "vbox"@) && !text::has_part(back, "virtualbox"@)
            ==> !names_virtualbox(front, back),
{
    let host = front + "vbox"@ + back;
    let at = front.len() as int;
    assert(host.subrange(at, at + "vbox"@.len()) =~= "vbox"@);
    assert(text::occurs_at(host, "vbox"@, at));
    let product = front + "virtualbox"@ + back;
    assert(product.subrange(at, at + "virtualbox"@.len()) =~= "virtualbox"@);
    assert(text::occurs_at(product, "virtualbox"@, at));
}

/// The home of a user is the sixth field of the user's own line, behind any
/// lines of others.
pub proof fn homes_are_listed_by_user(
    front: Seq<Seq<char>>,
    user: Seq<char>,
    line: Seq<char>,
    back: Seq<Seq<char>>,
)
    requires
        forall|i: int|
            0 <= i < front.len() ==> scan::fields(#[trigger] front[i], ':')[0] != user,
        scan::fields(line, ':').len() >= 6,
        scan::fields(line, ':')[0] == user,
    ensures
        home_in_lines(front + seq![line] + back, user) == Some(scan::fields(line, ':')[5]),
    decreases front.len(),
{
    let all = front + seq![line] + back;
    if front.len() > 0 {
        assert(all[0] == front[0]);
        assert(scan::fields(front[0], ':')[0] != user);
        let rest = front.drop_first();
        assert(all.drop_first() =~= rest + seq![line] + back);
        assert forall|i: int| 0 <= i < rest.len() implies scan::fields(#[trigger] rest[i], ':')[0]
            != user by {
            assert(rest[i] == front[i + 1]);
        }
        homes_are_listed_by_user(rest, user, line, back);
    } else {
        assert(all[0] == line);
    }
}

/// A user who is not listed has no home there.
pub proof fn unlisted_users_have_no_home(lines: Seq<Seq<char>>, user: Seq<char>)
    requires
        forall|i: int|
            0 <= i < lines.len() ==> scan::fields(#[trigger] lines[i], ':')[0] != user,
    ensures
        home_in_lines(lines, user) is None,
    decreases lines.len(),
{
    if lines.len() > 0 {
        assert(scan::fields(lines[0], ':')[0] != user);
        let rest = lines.drop_first();
        assert forall|i: int| 0 <= i < rest.len() implies scan::fields(#[trigger] rest[i], ':')[0]
            != user by {
            assert(rest[i] == lines[i + 1]);
        }
        unlisted_users_have_no_home(rest, user);
    }
}

/// Whoever became no other user is at home where that is set, and without that
/// in the directory for temporary files; so is one whose home is not listed.
pub proof fn homes_fall_back(
    sudo_user: Option<Seq<char>>,
    passwd: Option<Seq<char>>,
    home: Option<Seq<char>>,
)
    requires
        sudo_user is None || passwd is None || home_in_lines(
            scan::lines(passwd->0),
            sudo_user->0,
        ) is None,
    ensures
        home matches Some(directory) ==> home_text(sudo_user, passwd, home) == directory,
        home is None ==> home_text(sudo_user, passwd, home) == "/tmp"@,
{
}

/// The effective capabilities are the hexadecimal number behind the heading, in
/// the first line that has it.
pub proof fn capabilities_read_back(
    front: Seq<Seq<char>>,
    number: Seq<char>,
    back: Seq<Seq<char>>,
)
    requires
        forall|i: int|
            0 <= i < front.len() ==> !text::begins_with(#[trigger] front[i], "CapEff:"@),
        number.len() > 0,
        forall|i: int| 0 <= i < number.len() ==> !scan::is_space(#[trigger] number[i]),
    ensures
        ({
            let found = capabilities_in_lines(
                front + seq!["CapEff:"@ + seq!['\t'] + number] + back,
            );
            match decimal::parsed(number, 16, 0xffff_ffff_ffff_ffff) {
                Some(set) => found == Some(set as u64),
                None => found is None,
            }
        }),
    decreases front.len(),
{
    let line = "CapEff:"@ + seq!['\t'] + number;
    let all = front + seq![line] + back;
    if front.len() > 0 {
        assert(all[0] == front[0]);
        let rest = front.drop_first();
        assert(all.drop_first() =~= rest + seq![line] + back);
        assert forall|i: int| 0 <= i < rest.len() implies !text::begins_with(
            #[trigger] rest[i],
            "CapEff:"@,
        ) by {
            assert(rest[i] == front[i + 1]);
        }
        capabilities_read_back(rest, number, back);
    } else {
        reveal_strlit("CapEff:");
        assert(all[0] == line);
        assert(line.subrange(0, 7) =~= "CapEff:"@);
        scan::space_sets_words_apart("CapEff:"@, '\t', number);
        scan::one_word("CapEff:"@);
        scan::one_word(number);
        assert(scan::words(line) =~= seq!["CapEff:"@, number]);
    }
}

/// The two bits that are looked at are those of 4096 and of 8192.
pub proof fn bits_are_those_of_the_capabilities(set: u64)
    ensures
        bit(set, 12) <==> set / 4096 % 2 == 1,
        bit(set, 13) <==> set / 8192 % 2 == 1,
{
    assert((set >> 12u64) & 1 == 1 <==> set / 4096 % 2 == 1) by (bit_vector);
    assert((set >> 13u64) & 1 == 1 <==> set / 8192 % 2 == 1) by (bit_vector);
}

} // verus!
