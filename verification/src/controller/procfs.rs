//! Reading what the kernel says of sockets, ports and users under `/proc`.

use std::collections::BTreeSet;

use vstd::prelude::*;

use crate::decimal;
use crate::decimal::{append_decimal, parse_number};
use crate::scan;
use crate::scan::{fields_of, lines_of, slice_of, words_of};
use crate::text;
use crate::text::{chars_of, stands_at};

verus! {

broadcast use vstd::laws_cmp::group_laws_cmp;

/// The line of a table under `/proc/net` that names its columns.
pub const PROC_NET_HEADER_INDEX: usize = 0;

/// The number of columns that a line of such a table must have to be read.
pub const PROC_NET_PORT_COLUMN_COUNT: usize = 10;

/// The port in an address of the form `ADDRESS:PORT`, where the port is in
/// hexadecimal.
pub open spec fn port_in_address(address: Seq<char>) -> Option<u16> {
    let parts = scan::fields(address, ':');
    if parts.len() < 2 {
        None
    } else {
        match decimal::parsed(parts[1], 16, 0xffff) {
            Some(port) => Some(port as u16),
            None => None,
        }
    }
}

/// The inode in a link of the form `socket:[INODE]`.
pub open spec fn inode_in_link(link: Seq<char>) -> Option<u64> {
    if text::begins_with(link, "socket:["@) && text::finishes_with(link, "]"@) {
        match decimal::parsed(
            link.subrange("socket:["@.len() as int, link.len() - 1),
            10,
            0xffff_ffff_ffff_ffff,
        ) {
            Some(inode) => Some(inode as u64),
            None => None,
        }
    } else {
        None
    }
}

/// The inodes of the sockets among the targets of links.
pub open spec fn inodes_in_links(links: Seq<Seq<char>>) -> Set<u64> {
    Set::new(|inode: u64| exists|i: int| 0 <= i < links.len() && inode_in_link(#[trigger] links[i]) == Some(inode))
}

/// The port of one line of a table under `/proc/net`: the local port of the
/// socket, if the line is complete, and if the socket is one of `wanted`,
/// where that is given.
pub open spec fn port_in_line(line: Seq<char>, wanted: Option<Set<u64>>) -> Option<u16> {
    let columns = scan::words(line);
    if columns.len() < PROC_NET_PORT_COLUMN_COUNT {
        None
    } else {
        match decimal::parsed(columns[9], 10, 0xffff_ffff_ffff_ffff) {
            Some(inode) => if wanted is Some && !wanted->0.contains(inode as u64) {
                None
            } else {
                port_in_address(columns[1])
            },
            None => None,
        }
    }
}

/// The ports of a table under `/proc/net`; the first line is its heading.
pub open spec fn ports_in_table(table: Seq<char>, wanted: Option<Set<u64>>) -> Set<u16> {
    Set::new(
        |port: u16|
            exists|i: int|
                1 <= i < scan::lines(table).len() && port_in_line(
                    #[trigger] scan::lines(table)[i],
                    wanted,
                ) == Some(port),
    )
}

/// The ports of several tables; one that could not be read has none.
pub open spec fn ports_in_tables(
    tables: Seq<Option<Seq<char>>>,
    wanted: Option<Set<u64>>,
) -> Set<u16> {
    Set::new(
        |port: u16|
            exists|i: int|
                0 <= i < tables.len() && (#[trigger] tables[i]) is Some && ports_in_table(
                    tables[i]->0,
                    wanted,
                ).contains(port),
    )
}

/// The characters of texts that may be missing.
pub open spec fn optional_texts(tables: Seq<Option<String>>) -> Seq<Option<Seq<char>>> {
    tables.map_values(|table: Option<String>| text::optional(table))
}

/// The effective user in the status of a process: the second number in the
/// first line that begins with `Uid:`.
pub open spec fn uid_in_lines(lines: Seq<Seq<char>>) -> Option<u32>
    decreases lines.len(),
{
    if lines.len() == 0 {
        None
    } else if text::begins_with(lines[0], "Uid:"@) {
        let numbers = scan::words(lines[0].skip("Uid:"@.len() as int));
        if numbers.len() < 2 {
            None
        } else {
            match decimal::parsed(numbers[1], 10, 0xffff_ffff) {
                Some(uid) => Some(uid as u32),
                None => None,
            }
        }
    } else {
        uid_in_lines(lines.drop_first())
    }
}

/// The directory of the open files of a process.
pub open spec fn process_links_path(pid: u32) -> Seq<char> {
    "/proc/"@ + decimal::decimal(pid as nat) + "/fd"@
}

/// The directory of the open files of a thread.
pub open spec fn thread_links_path(pid: u32, tid: u32) -> Seq<char> {
    "/proc/"@ + decimal::decimal(pid as nat) + "/task/"@ + decimal::decimal(tid as nat) + "/fd"@
}

/// The file with the status of a process.
pub open spec fn status_file_path(pid: u32) -> Seq<char> {
    "/proc/"@ + decimal::decimal(pid as nat) + "/status"@
}

/// The port in an address of the form `ADDRESS:PORT`.
pub fn parse_port_from_proc_addr(proc_addr: &str) -> (port: Option<u16>)
    ensures
        port == port_in_address(proc_addr@),
{
    port_of(&chars_of(proc_addr))
}

fn port_of(address: &Vec<char>) -> (port: Option<u16>)
    ensures
        port == port_in_address(address@),
{
    let parts = fields_of(address, ':');
    assert(text::rows(parts@).len() == parts@.len());
    if parts.len() < 2 {
        return None;
    }
    assert(text::rows(parts@)[1] == parts@[1]@);
    match parse_number(&parts[1], 16, 0xffff) {
        Some(port) => Some(port as u16),
        None => None,
    }
}

/// The inode in a link of the form `socket:[INODE]`.
pub fn parse_socket_inode(target: &str) -> (inode: Option<u64>)
    ensures
        inode == inode_in_link(target@),
{
    let link = chars_of(target);
    let opening = chars_of("socket:[");
    let closing = chars_of("]");
    proof {
        reveal_strlit("socket:[");
        reveal_strlit("]");
    }
    let size: usize = link.len();
    if !stands_at(&link, &opening, 0) {
        return None;
    }
    if !stands_at(&link, &closing, size - 1) {
        return None;
    }
    assert(link@.subrange(0, 8)[7] == link@[7]);
    assert(link@.subrange(size - 1, size as int)[0] == link@[size - 1]);
    let inner = slice_of(&link, 8, size - 1);
    parse_number(&inner, 10, 0xffff_ffff_ffff_ffff)
}

/// The inodes of the sockets among the targets of links.
pub fn collect_socket_inodes(targets: &Vec<String>) -> (inodes: BTreeSet<u64>)
    ensures
        inodes@ == inodes_in_links(text::texts(targets@)),
{
    let mut inodes: BTreeSet<u64> = BTreeSet::new();
    let ghost links = text::texts(targets@);
    let mut i: usize = 0;
    assert(inodes@ =~= inodes_in_links(links.take(0)));
    while i < targets.len()
        invariant
            i <= targets@.len(),
            links == text::texts(targets@),
            inodes@ == inodes_in_links(links.take(i as int)),
        decreases targets@.len() - i,
    {
        let ghost before = inodes@;
        let found = parse_socket_inode(targets[i].as_str());
        if let Some(inode) = found {
            inodes.insert(inode);
        }
        proof {
            let now = links.take(i + 1);
            assert(now[i as int] == targets@[i as int]@);
            assert forall|inode: u64|
                inodes@.contains(inode) <==> inodes_in_links(now).contains(inode) by {
                if before.contains(inode) {
                    let k = choose|k: int|
                        0 <= k < i && inode_in_link(#[trigger] links.take(i as int)[k]) == Some(inode);
                    assert(now[k] == links.take(i as int)[k]);
                }
                if inodes_in_links(now).contains(inode) {
                    let k = choose|k: int|
                        0 <= k < now.len() && inode_in_link(#[trigger] now[k]) == Some(inode);
                    if k < i {
                        assert(now[k] == links.take(i as int)[k]);
                    }
                }
                if found == Some(inode) {
                    assert(inode_in_link(now[i as int]) == Some(inode));
                }
            }
            assert(inodes@ =~= inodes_in_links(now));
        }
        i += 1;
    }
    assert(links.take(i as int) =~= links);
    inodes
}

spec fn wanted_set(wanted: Option<&BTreeSet<u64>>) -> Option<Set<u64>> {
    match wanted {
        Some(inodes) => Some(inodes@),
        None => None,
    }
}

fn line_port(line: &Vec<char>, wanted: Option<&BTreeSet<u64>>) -> (port: Option<u16>)
    ensures
        port == port_in_line(line@, wanted_set(wanted)),
{
    let columns = words_of(line);
    assert(text::rows(columns@).len() == columns@.len());
    if columns.len() < PROC_NET_PORT_COLUMN_COUNT {
        return None;
    }
    assert(text::rows(columns@)[9] == columns@[9]@);
    assert(text::rows(columns@)[1] == columns@[1]@);
    let inode = match parse_number(&columns[9], 10, 0xffff_ffff_ffff_ffff) {
        Some(inode) => inode,
        None => {
            return None;
        },
    };
    if let Some(inodes) = wanted {
        if !inodes.contains(&inode) {
            return None;
        }
    }
    port_of(&columns[1])
}

fn add_table_ports(table: &str, wanted: Option<&BTreeSet<u64>>, ports: &mut BTreeSet<u16>)
    ensures
        final(ports)@ == old(ports)@.union(ports_in_table(table@, wanted_set(wanted))),
{
    let lines = lines_of(&chars_of(table));
    let ghost filter = wanted_set(wanted);
    let ghost all = scan::lines(table@);
    assert(text::rows(lines@).len() == lines@.len());
    let mut i: usize = PROC_NET_HEADER_INDEX + 1;
    let ghost mut seen = Set::<u16>::empty();
    assert(ports@ =~= old(ports)@.union(seen));
    while i < lines.len()
        invariant
            1 <= i,
            all == text::rows(lines@),
            lines@.len() == all.len(),
            filter == wanted_set(wanted),
            i <= all.len() || i == 1,
            ports@ == old(ports)@.union(seen),
            forall|port: u16|
                seen.contains(port) <==> exists|k: int|
                    1 <= k < i && k < all.len() && port_in_line(#[trigger] all[k], filter) == Some(port),
        decreases lines@.len() - i,
    {
        let ghost before = seen;
        assert(all[i as int] == lines@[i as int]@);
        let found = line_port(&lines[i], wanted);
        if let Some(port) = found {
            ports.insert(port);
            proof {
                seen = seen.insert(port);
                assert(ports@ =~= old(ports)@.union(seen));
            }
        }
        proof {
            assert forall|port: u16|
                seen.contains(port) <==> exists|k: int|
                    1 <= k < i + 1 && k < all.len() && port_in_line(#[trigger] all[k], filter) == Some(
                        port,
                    ) by {
                if found == Some(port) {
                    assert(port_in_line(all[i as int], filter) == Some(port));
                }
            }
        }
        i += 1;
    }
    assert(seen =~= ports_in_table(table@, filter));
}

/// The ports of several tables under `/proc/net`, whose contents are given
/// where they could be read.
pub fn collect_net_table_ports(
    tables: &Vec<Option<String>>,
    inode_filter: Option<&BTreeSet<u64>>,
) -> (ports: BTreeSet<u16>)
    ensures
        ports@ == ports_in_tables(
            optional_texts(tables@),
            (match inode_filter {
                Some(inodes) => Some(inodes@),
                None => None,
            }),
        ),
{
    let mut ports: BTreeSet<u16> = BTreeSet::new();
    let ghost all = optional_texts(tables@);
    let ghost filter = wanted_set(inode_filter);
    let mut i: usize = 0;
    assert(ports@ =~= ports_in_tables(all.take(0), filter));
    while i < tables.len()
        invariant
            i <= tables@.len(),
            all == optional_texts(tables@),
            filter == wanted_set(inode_filter),
            ports@ == ports_in_tables(all.take(i as int), filter),
        decreases tables@.len() - i,
    {
        let ghost before = ports@;
        if let Some(table) = &tables[i] {
            add_table_ports(table.as_str(), inode_filter, &mut ports);
        }
        proof {
            let now = all.take(i + 1);
            let was = all.take(i as int);
            assert(now[i as int] == all[i as int]);
            assert forall|port: u16|
                ports@.contains(port) <==> ports_in_tables(now, filter).contains(port) by {
                if before.contains(port) {
                    let k = choose|k: int|
                        0 <= k < was.len() && (#[trigger] was[k]) is Some && ports_in_table(
                            was[k]->0,
                            filter,
                        ).contains(port);
                    assert(now[k] == was[k]);
                }
                if ports_in_tables(now, filter).contains(port) {
                    let k = choose|k: int|
                        0 <= k < now.len() && (#[trigger] now[k]) is Some && ports_in_table(
                            now[k]->0,
                            filter,
                        ).contains(port);
                    if k < i {
                        assert(now[k] == was[k]);
                    }
                }
                if ports@.contains(port) && !before.contains(port) {
                    assert(now[i as int] is Some && ports_in_table(now[i as int]->0, filter).contains(port));
                }
            }
            assert(ports@ =~= ports_in_tables(now, filter));
        }
        i += 1;
    }
    assert(all.take(i as int) =~= all);
    ports
}

/// The effective user in the status of a process.
pub fn uid_in_status(status: &str) -> (uid: Option<u32>)
    ensures
        uid == uid_in_lines(scan::lines(status@)),
{
    let lines = lines_of(&chars_of(status));
    let heading = chars_of("Uid:");
    let ghost all = scan::lines(status@);
    proof {
        reveal_strlit("Uid:");
    }
    let mut i: usize = 0;
    assert(all.skip(0) =~= all);
    while i < lines.len()
        invariant
            i <= lines@.len(),
            all == text::rows(lines@),
            heading@ == "Uid:"@,
            heading@.len() == 4,
            all == scan::lines(status@),
            uid_in_lines(all.skip(i as int)) == uid_in_lines(all),
        decreases lines@.len() - i,
    {
        let ghost rest = all.skip(i as int);
        assert(rest[0] == lines@[i as int]@);
        if stands_at(&lines[i], &heading, 0) {
            let line = &lines[i];
            let tail = slice_of(line, 4, line.len());
            assert(tail@ =~= rest[0].skip(4));
            let numbers = words_of(&tail);
            assert(text::rows(numbers@).len() == numbers@.len());
            if numbers.len() < 2 {
                return None;
            }
            assert(text::rows(numbers@)[1] == numbers@[1]@);
            return match parse_number(&numbers[1], 10, 0xffff_ffff) {
                Some(uid) => Some(uid as u32),
                None => None,
            };
        }
        assert(rest.drop_first() =~= all.skip(i + 1));
        i += 1;
    }
    None
}

/// The directory of the open files of a process.
pub fn process_links_dir(pid: u32) -> (path: String)
    ensures
        path@ == process_links_path(pid),
{
    let mut path = String::new();
    path.append("/proc/");
    append_decimal(&mut path, pid as u64);
    path.append("/fd");
    assert(path@ =~= process_links_path(pid));
    path
}

/// The directory of the open files of a thread.
pub fn thread_links_dir(pid: u32, tid: u32) -> (path: String)
    ensures
        path@ == thread_links_path(pid, tid),
{
    let mut path = String::new();
    path.append("/proc/");
    append_decimal(&mut path, pid as u64);
    path.append("/task/");
    append_decimal(&mut path, tid as u64);
    path.append("/fd");
    assert(path@ =~= thread_links_path(pid, tid));
    path
}

/// The file with the status of a process.
pub fn status_file(pid: u32) -> (path: String)
    ensures
        path@ == status_file_path(pid),
{
    let mut path = String::new();
    path.append("/proc/");
    append_decimal(&mut path, pid as u64);
    path.append("/status");
    assert(path@ =~= status_file_path(pid));
    path
}

/// The link that the kernel shows for a socket gives back its inode.
pub proof fn socket_links_read_back(inode: u64)
    ensures
        inode_in_link("socket:["@ + decimal::decimal(inode as nat) + "]"@) == Some(inode),
{
    reveal_strlit("socket:[");
    reveal_strlit("]");
    let digits = decimal::decimal(inode as nat);
    let link = "socket:["@ + digits + "]"@;
    assert(link.subrange(0, 8) =~= "socket:["@);
    assert(link.subrange(link.len() - 1, link.len() as int) =~= "]"@);
    assert(link.subrange(8, link.len() - 1) =~= digits);
    decimal::decimal_parses(inode as nat, 0xffff_ffff_ffff_ffff);
}

/// Asking for the sockets of a process narrows the answer: each port found for
/// certain sockets is a port of the table.
pub proof fn wanted_ports_are_ports(tables: Seq<Option<Seq<char>>>, wanted: Set<u64>, port: u16)
    requires
        ports_in_tables(tables, Some(wanted)).contains(port),
    ensures
        ports_in_tables(tables, None).contains(port),
{
    let i = choose|i: int|
        0 <= i < tables.len() && (#[trigger] tables[i]) is Some && ports_in_table(
            tables[i]->0,
            Some(wanted),
        ).contains(port);
    let all = scan::lines(tables[i]->0);
    let k = choose|k: int|
        1 <= k < all.len() && port_in_line(#[trigger] all[k], Some(wanted)) == Some(port);
    assert(port_in_line(all[k], None) == Some(port));
    assert(ports_in_table(tables[i]->0, None).contains(port));
}

/// A process without sockets has no ports.
pub proof fn no_sockets_no_ports(tables: Seq<Option<Seq<char>>>)
    ensures
        ports_in_tables(tables, Some(Set::empty())).is_empty(),
{
    assert forall|port: u16| !ports_in_tables(tables, Some(Set::empty())).contains(port) by {
        if ports_in_tables(tables, Some(Set::empty())).contains(port) {
            let i = choose|i: int|
                0 <= i < tables.len() && (#[trigger] tables[i]) is Some && ports_in_table(
                    tables[i]->0,
                    Some(Set::empty()),
                ).contains(port);
            let all = scan::lines(tables[i]->0);
            let k = choose|k: int|
                1 <= k < all.len() && port_in_line(#[trigger] all[k], Some(Set::empty())) == Some(port);
            assert(port_in_line(all[k], Some(Set::<u64>::empty())) is None);
        }
    }
    assert(ports_in_tables(tables, Some(Set::empty())) =~= Set::empty());
}

/// A hexadecimal digit as the kernel writes it.
pub open spec fn hex_digit(n: int) -> char {
    if n < 10 {
        decimal::digit(n)
    } else if n == 10 {
        'A'
    } else if n == 11 {
        'B'
    } else if n == 12 {
        'C'
    } else if n == 13 {
        'D'
    } else if n == 14 {
        'E'
    } else {
        'F'
    }
}

/// A port as the kernel writes it: four hexadecimal digits.
pub open spec fn hex_port(port: u16) -> Seq<char> {
    let n = port as int;
    seq![
        hex_digit(n / 0x1000),
        hex_digit(n / 0x100 % 0x10),
        hex_digit(n / 0x10 % 0x10),
        hex_digit(n % 0x10),
    ]
}

/// The address that the kernel shows for a socket gives back its port.
pub proof fn socket_addresses_read_back(address: Seq<char>, port: u16)
    requires
        !address.contains(':'),
    ensures
        port_in_address(address + seq![':'] + hex_port(port)) == Some(port),
{
    let digits = hex_port(port);
    let n = port as int;
    assert(!digits.contains(':'));
    scan::one_field(address, ':');
    scan::one_more_field(address, ':', digits);
    let parts = scan::fields(address + seq![':'] + digits, ':');
    assert(parts =~= seq![address, digits]);
    assert(decimal::without_plus(digits) == digits);
    assert(decimal::all_digits(digits, 16));
    let one = digits.drop_last().drop_last().drop_last();
    let two = digits.drop_last().drop_last();
    let three = digits.drop_last();
    assert(one.drop_last() =~= Seq::empty());
    assert(decimal::value_of(one.drop_last(), 16) == 0);
    assert(one.last() == digits[0]);
    assert(two.last() == digits[1]);
    assert(three.last() == digits[2]);
    assert(decimal::value_of(one, 16) == n / 0x1000);
    assert(decimal::value_of(two, 16) == n / 0x100);
    assert(decimal::value_of(three, 16) == n / 0x10);
    assert(decimal::value_of(digits, 16) == n);
}

/// Every table that could be read contributes: the ports of two groups of
/// tables are those of the one and those of the other, whatever else is there.
pub proof fn tables_add_up(
    a: Seq<Option<Seq<char>>>,
    b: Seq<Option<Seq<char>>>,
    wanted: Option<Set<u64>>,
)
    ensures
        ports_in_tables(a + b, wanted) == ports_in_tables(a, wanted).union(
            ports_in_tables(b, wanted),
        ),
{
    let whole = a + b;
    assert forall|port: u16|
        ports_in_tables(whole, wanted).contains(port) <==> ports_in_tables(a, wanted).union(
            ports_in_tables(b, wanted),
        ).contains(port) by {
        if ports_in_tables(whole, wanted).contains(port) {
            let i = choose|i: int|
                0 <= i < whole.len() && (#[trigger] whole[i]) is Some && ports_in_table(
                    whole[i]->0,
                    wanted,
                ).contains(port);
            if i < a.len() {
                assert(a[i] == whole[i]);
            } else {
                assert(b[i - a.len()] == whole[i]);
            }
        }
        if ports_in_tables(a, wanted).contains(port) {
            let i = choose|i: int|
                0 <= i < a.len() && (#[trigger] a[i]) is Some && ports_in_table(
                    a[i]->0,
                    wanted,
                ).contains(port);
            assert(whole[i] == a[i]);
        }
        if ports_in_tables(b, wanted).contains(port) {
            let i = choose|i: int|
                0 <= i < b.len() && (#[trigger] b[i]) is Some && ports_in_table(
                    b[i]->0,
                    wanted,
                ).contains(port);
            assert(whole[a.len() + i] == b[i]);
        }
    }
    assert(ports_in_tables(whole, wanted) =~= ports_in_tables(a, wanted).union(
        ports_in_tables(b, wanted),
    ));
}

/// Every socket that is wanted gives its port, in whichever table and line it
/// is listed: the line has its inode in the tenth column, and its local port,
/// in hexadecimal behind a colon, in the second.
pub proof fn every_listed_socket_gives_its_port(
    tables: Seq<Option<Seq<char>>>,
    i: int,
    k: int,
    address: Seq<char>,
    port: u16,
    inode: u64,
    wanted: Option<Set<u64>>,
)
    requires
        0 <= i < tables.len(),
        tables[i] is Some,
        1 <= k < scan::lines(tables[i]->0).len(),
        ({
            let columns = scan::words(scan::lines(tables[i]->0)[k]);
            &&& columns.len() >= 10
            &&& columns[9] == decimal::decimal(inode as nat)
            &&& columns[1] == address + seq![':'] + hex_port(port)
        }),
        !address.contains(':'),
        wanted is None || wanted->0.contains(inode),
    ensures
        ports_in_tables(tables, wanted).contains(port),
{
    let line = scan::lines(tables[i]->0)[k];
    decimal::decimal_parses(inode as nat, 0xffff_ffff_ffff_ffff);
    socket_addresses_read_back(address, port);
    assert(port_in_line(line, wanted) == Some(port));
    assert(ports_in_table(tables[i]->0, wanted).contains(port));
}

/// Nothing else gives a port: each port comes from a line, behind the heading,
/// of a table that could be read, with the port in the second of at least ten
/// columns, and in the tenth the inode of a socket that is wanted.
pub proof fn every_port_is_that_of_a_listed_socket(
    tables: Seq<Option<Seq<char>>>,
    wanted: Option<Set<u64>>,
    port: u16,
)
    requires
        ports_in_tables(tables, wanted).contains(port),
    ensures
        exists|i: int, k: int|
            #![trigger scan::lines(tables[i]->0)[k]]
            {
                &&& 0 <= i < tables.len()
                &&& tables[i] is Some
                &&& 1 <= k < scan::lines(tables[i]->0).len()
                &&& ({
                    let columns = scan::words(scan::lines(tables[i]->0)[k]);
                    let parts = scan::fields(columns[1], ':');
                    let inode = decimal::parsed(columns[9], 10, 0xffff_ffff_ffff_ffff);
                    &&& columns.len() >= 10
                    &&& inode is Some
                    &&& wanted is Some ==> wanted->0.contains(inode->0 as u64)
                    &&& parts.len() >= 2
                    &&& decimal::parsed(parts[1], 16, 0xffff) == Some(port as int)
                })
            },
{
    let i = choose|i: int|
        0 <= i < tables.len() && (#[trigger] tables[i]) is Some && ports_in_table(
            tables[i]->0,
            wanted,
        ).contains(port);
    let all = scan::lines(tables[i]->0);
    let k = choose|k: int|
        1 <= k < all.len() && port_in_line(#[trigger] all[k], wanted) == Some(port);
    let columns = scan::words(all[k]);
    let parts = scan::fields(columns[1], ':');
    assert(parts.len() >= 2);
    let number = decimal::parsed(parts[1], 16, 0xffff);
    assert(number is Some);
    let body = decimal::without_plus(parts[1]);
    assert(0 <= number->0 <= 0xffff) by {
        decimal::values_are_not_negative(body, 16);
    }
    assert(scan::lines(tables[i]->0)[k] == all[k]);
}

/// The sockets of a process give their ports one by one: the ports of two
/// groups of sockets are those of the one and those of the other.
pub proof fn sockets_add_up(tables: Seq<Option<Seq<char>>>, a: Set<u64>, b: Set<u64>)
    ensures
        ports_in_tables(tables, Some(a.union(b))) == ports_in_tables(tables, Some(a)).union(
            ports_in_tables(tables, Some(b)),
        ),
{
    let both = a.union(b);
    assert forall|port: u16|
        ports_in_tables(tables, Some(both)).contains(port) <==> ports_in_tables(
            tables,
            Some(a),
        ).union(ports_in_tables(tables, Some(b))).contains(port) by {
        if ports_in_tables(tables, Some(both)).contains(port) {
            let (i, k) = where_listed(tables, both, port);
            let line = scan::lines(tables[i]->0)[k];
            if port_in_line(line, Some(a)) == Some(port) {
                assert(ports_in_table(tables[i]->0, Some(a)).contains(port));
            } else {
                assert(port_in_line(line, Some(b)) == Some(port));
                assert(ports_in_table(tables[i]->0, Some(b)).contains(port));
            }
        }
        if ports_in_tables(tables, Some(a)).contains(port) {
            let (i, k) = where_listed(tables, a, port);
            assert(port_in_line(scan::lines(tables[i]->0)[k], Some(both)) == Some(port));
            assert(ports_in_table(tables[i]->0, Some(both)).contains(port));
        }
        if ports_in_tables(tables, Some(b)).contains(port) {
            let (i, k) = where_listed(tables, b, port);
            assert(port_in_line(scan::lines(tables[i]->0)[k], Some(both)) == Some(port));
            assert(ports_in_table(tables[i]->0, Some(both)).contains(port));
        }
    }
    assert(ports_in_tables(tables, Some(both)) =~= ports_in_tables(tables, Some(a)).union(
        ports_in_tables(tables, Some(b)),
    ));
}

proof fn where_listed(tables: Seq<Option<Seq<char>>>, wanted: Set<u64>, port: u16) -> (place: (
    int,
    int,
))
    requires
        ports_in_tables(tables, Some(wanted)).contains(port),
    ensures
        0 <= place.0 < tables.len(),
        tables[place.0] is Some,
        1 <= place.1 < scan::lines(tables[place.0]->0).len(),
        port_in_line(scan::lines(tables[place.0]->0)[place.1], Some(wanted)) == Some(port),
{
    let i = choose|i: int|
        0 <= i < tables.len() && (#[trigger] tables[i]) is Some && ports_in_table(
            tables[i]->0,
            Some(wanted),
        ).contains(port);
    let all = scan::lines(tables[i]->0);
    let k = choose|k: int|
        1 <= k < all.len() && port_in_line(#[trigger] all[k], Some(wanted)) == Some(port);
    (i, k)
}

/// Every open file counts: the sockets among two groups of links are those of
/// the one and those of the other.
pub proof fn links_add_up(a: Seq<Seq<char>>, b: Seq<Seq<char>>)
    ensures
        inodes_in_links(a + b) == inodes_in_links(a).union(inodes_in_links(b)),
{
    let whole = a + b;
    assert forall|inode: u64|
        inodes_in_links(whole).contains(inode) <==> inodes_in_links(a).union(
            inodes_in_links(b),
        ).contains(inode) by {
        if inodes_in_links(whole).contains(inode) {
            let i = choose|i: int|
                0 <= i < whole.len() && inode_in_link(#[trigger] whole[i]) == Some(inode);
            if i < a.len() {
                assert(a[i] == whole[i]);
            } else {
                assert(b[i - a.len()] == whole[i]);
            }
        }
        if inodes_in_links(a).contains(inode) {
            let i = choose|i: int| 0 <= i < a.len() && inode_in_link(#[trigger] a[i]) == Some(inode);
            assert(whole[i] == a[i]);
        }
        if inodes_in_links(b).contains(inode) {
            let i = choose|i: int| 0 <= i < b.len() && inode_in_link(#[trigger] b[i]) == Some(inode);
            assert(whole[a.len() + i] == b[i]);
        }
    }
    assert(inodes_in_links(whole) =~= inodes_in_links(a).union(inodes_in_links(b)));
}

/// Every socket among the open files is found, wherever its link stands.
pub proof fn every_socket_is_found(links: Seq<Seq<char>>, i: int, inode: u64)
    requires
        0 <= i < links.len(),
        links[i] == "socket:["@ + decimal::decimal(inode as nat) + "]"@,
    ensures
        inodes_in_links(links).contains(inode),
{
    socket_links_read_back(inode);
    assert(inode_in_link(links[i]) == Some(inode));
}

/// Other open files are no sockets: what is found is a number between
/// `socket:[` and `]`.
pub proof fn only_sockets_are_found(links: Seq<Seq<char>>, inode: u64)
    requires
        inodes_in_links(links).contains(inode),
    ensures
        exists|i: int, number: Seq<char>|
            #![trigger links[i], decimal::parsed(number, 10, 0xffff_ffff_ffff_ffff)]
            {
                &&& 0 <= i < links.len()
                &&& links[i] == "socket:["@ + number + "]"@
                &&& decimal::parsed(number, 10, 0xffff_ffff_ffff_ffff) == Some(inode as int)
            },
{
    reveal_strlit("socket:[");
    reveal_strlit("]");
    let i = choose|i: int| 0 <= i < links.len() && inode_in_link(#[trigger] links[i]) == Some(inode);
    let link = links[i];
    let size = link.len() as int;
    assert(link.subrange(0, 8)[7] == link[7]);
    assert(link.subrange(size - 1, size)[0] == link[size - 1]);
    let number = link.subrange(8, size - 1);
    let value = decimal::parsed(number, 10, 0xffff_ffff_ffff_ffff);
    decimal::values_are_not_negative(decimal::without_plus(number), 10);
    assert(value == Some(inode as int));
    assert(link =~= link.subrange(0, 8) + number + link.subrange(size - 1, size));
}

/// The effective user counts, and not the real one: in the first line with the
/// heading, the kernel writes the real user before it.
pub proof fn effective_users_count(
    front: Seq<Seq<char>>,
    owner: u32,
    effective: u32,
    others: Seq<char>,
    back: Seq<Seq<char>>,
)
    requires
        forall|i: int| 0 <= i < front.len() ==> !text::begins_with(#[trigger] front[i], "Uid:"@),
    ensures
        uid_in_lines(
            front + seq![
                "Uid:"@ + seq!['\t'] + decimal::decimal(owner as nat) + seq!['\t']
                    + decimal::decimal(effective as nat) + seq!['\t'] + others,
            ] + back,
        ) == Some(effective),
    decreases front.len(),
{
    let first = decimal::decimal(owner as nat);
    let second = decimal::decimal(effective as nat);
    let line = "Uid:"@ + seq!['\t'] + first + seq!['\t'] + second + seq!['\t'] + others;
    let all = front + seq![line] + back;
    if front.len() > 0 {
        assert(all[0] == front[0]);
        assert(all.drop_first() =~= front.drop_first() + seq![line] + back);
        assert forall|i: int| 0 <= i < front.drop_first().len() implies !text::begins_with(
            #[trigger] front.drop_first()[i],
            "Uid:"@,
        ) by {
            assert(front.drop_first()[i] == front[i + 1]);
        }
        effective_users_count(front.drop_first(), owner, effective, others, back);
    } else {
        reveal_strlit("Uid:");
        assert(all[0] == line);
        assert(line.subrange(0, 4) =~= "Uid:"@);
        let rest = line.skip(4);
        let none = Seq::<char>::empty();
        let tail = second + seq!['\t'] + others;
        let middle = first + seq!['\t'] + tail;
        assert(rest =~= none + seq!['\t'] + middle);
        scan::space_sets_words_apart(none, '\t', middle);
        scan::no_words_in_space(none);
        scan::space_sets_words_apart(first, '\t', tail);
        scan::space_sets_words_apart(second, '\t', others);
        numbers_are_words(owner as nat);
        numbers_are_words(effective as nat);
        let numbers = scan::words(rest);
        assert(numbers =~= seq![first, second] + scan::words(others));
        assert(numbers[1] == second);
        decimal::decimal_parses(effective as nat, 0xffff_ffff);
    }
}

proof fn numbers_are_words(n: nat)
    ensures
        scan::words(decimal::decimal(n)) == seq![decimal::decimal(n)],
{
    decimal::decimal_is_digits(n);
    scan::one_word(decimal::decimal(n));
}

/// Without the heading there is no user.
pub proof fn no_heading_no_user(lines: Seq<Seq<char>>)
    requires
        forall|i: int| 0 <= i < lines.len() ==> !text::begins_with(#[trigger] lines[i], "Uid:"@),
    ensures
        uid_in_lines(lines) is None,
    decreases lines.len(),
{
    if lines.len() > 0 {
        assert(!text::begins_with(lines[0], "Uid:"@));
        assert forall|i: int| 0 <= i < lines.drop_first().len() implies !text::begins_with(
            #[trigger] lines.drop_first()[i],
            "Uid:"@,
        ) by {
            assert(lines.drop_first()[i] == lines[i + 1]);
        }
        no_heading_no_user(lines.drop_first());
    }
}

} // verus!
