//! How many packets went over the network.
use crate::text;
use vstd::prelude::*;

verus! {

/// The packets that the interfaces of the machine received and sent so far.
#[derive(Debug, Clone, Copy, PartialEq, Eq, Structural)]
pub struct NetStats {
    pub rx_packets: u64,
    pub tx_packets: u64,
}

/// The number that a field holds; one that holds no number counts as zero.
pub open spec fn field(s: Seq<char>) -> int {
    match text::unsigned(s, u64::MAX as int) {
        Some(n) => n,
        None => 0,
    }
}

/// Whether a line is one of an interface, with the columns that hold its packets.
pub open spec fn has_packet_columns(line: Seq<char>) -> bool {
    match text::find(line, ':', 0) {
        Some(i) => text::words(line.skip(i + 1)).len() >= 10,
        None => false,
    }
}

/// The packets received and sent that a line tells of: nothing if it is no line
/// of an interface, or one of the loopback interface.
pub open spec fn counters(line: Seq<char>) -> (int, int) {
    match text::find(line, ':', 0) {
        Some(i) => {
            let fields = text::words(line.skip(i + 1));
            if text::trimmed(line.take(i)) == "lo"@ || fields.len() < 10 {
                (0, 0)
            } else {
                (field(fields[1]), field(fields[9]))
            }
        },
        None => (0, 0),
    }
}

/// The sums over lines.
pub open spec fn totals(lines: Seq<Seq<char>>) -> (int, int)
    decreases lines.len(),
{
    if lines.len() == 0 {
        (0, 0)
    } else {
        let before = totals(lines.drop_last());
        let last = counters(lines.last());
        (before.0 + last.0, before.1 + last.1)
    }
}

/// A sum, as far as it fits.
pub open spec fn capped(n: int) -> u64 {
    if n > u64::MAX {
        u64::MAX
    } else {
        n as u64
    }
}

/// The lines of the table of interfaces: the first two are its head.
pub open spec fn interface_lines(contents: Seq<char>) -> Seq<Seq<char>> {
    let lines = text::pieces(contents, '\n');
    if lines.len() > 2 {
        lines.skip(2)
    } else {
        Seq::empty()
    }
}

fn read_field(w: &Vec<char>) -> (r: u64)
    ensures
        r == field(w@),
{
    match text::parse_unsigned(w, u64::MAX) {
        Some(n) => n,
        None => 0,
    }
}

fn read_line(line: &Vec<char>) -> (r: Option<(u64, u64)>)
    ensures
        r is Some <==> has_packet_columns(line@),
        match r {
            Some(n) => (n.0 as int, n.1 as int) == counters(line@),
            None => counters(line@) == (0int, 0int),
        },
{
    let i: usize = match text::find_char(line, ':', 0) {
        Some(i) => i,
        None => {
            return None;
        },
    };
    assert(i < line.len());
    let name = text::slice(line, 0, i);
    let rest = text::slice(line, i + 1, line.len());
    assert(name@ =~= line@.take(i as int));
    assert(rest@ =~= line@.skip(i + 1));
    let fields = text::split_whitespace(&rest);
    let ghost all = text::texts(fields@);
    assert(all.len() == fields@.len());
    if fields.len() < 10 {
        return None;
    }
    let name = text::from_chars(&text::trim(&name));
    if text::same(name.as_str(), "lo") {
        return Some((0, 0));
    }
    assert(all[1] == fields@[1]@);
    assert(all[9] == fields@[9]@);
    Some((read_field(&fields[1]), read_field(&fields[9])))
}

/// Whether one of the first `n` lines is one of an interface.
spec fn tells(lines: Seq<Seq<char>>, n: int) -> bool {
    exists|i: int| 0 <= i < n && has_packet_columns(#[trigger] lines[i])
}

/// Read the table of interfaces that the kernel keeps, if there is one. A text without
/// a line of an interface is no such table.
pub fn sample(contents: Option<&str>) -> (r: Option<NetStats>)
    ensures
        r is Some <==> contents is Some && exists|i: int|
            0 <= i < interface_lines(contents->0@).len() && has_packet_columns(
                #[trigger] interface_lines(contents->0@)[i],
            ),
        r is Some ==> r->0 == (NetStats {
            rx_packets: capped(totals(interface_lines(contents->0@)).0),
            tx_packets: capped(totals(interface_lines(contents->0@)).1),
        }),
{
    let contents = match contents {
        Some(c) => c,
        None => {
            return None;
        },
    };
    let lines = text::split(&text::chars_of(contents), '\n');
    let ghost all = text::texts(lines@);
    let ghost wanted = interface_lines(contents@);
    assert(all.len() == lines@.len());
    let mut rx: u64 = 0;
    let mut tx: u64 = 0;
    let mut told: bool = false;
    let mut i: usize = 2;
    assert(wanted.take(0) =~= Seq::<Seq<char>>::empty());
    while i < lines.len()
        invariant
            2 <= i,
            i <= lines@.len() || i == 2,
            all == text::texts(lines@),
            all.len() == lines@.len(),
            lines@.len() > 2 ==> wanted == all.skip(2),
            lines@.len() <= 2 ==> wanted.len() == 0,
            rx == capped(totals(wanted.take(i - 2)).0),
            tx == capped(totals(wanted.take(i - 2)).1),
            totals(wanted.take(i - 2)).0 >= 0,
            totals(wanted.take(i - 2)).1 >= 0,
            told == tells(wanted, i - 2),
        decreases lines.len() - i,
    {
        let line = read_line(&lines[i]);
        proof {
            assert(all[i as int] == lines@[i as int]@);
            assert(wanted[i - 2] == all[i as int]);
            assert(wanted.take(i - 1).drop_last() =~= wanted.take(i - 2));
            assert(wanted.take(i - 1).last() == wanted[i - 2]);
            if tells(wanted, i - 1) && !has_packet_columns(wanted[i - 2]) {
                assert(tells(wanted, i - 2));
            }
        }
        if let Some((a, b)) = line {
            rx = rx.saturating_add(a);
            tx = tx.saturating_add(b);
            told = true;
        }
        i += 1;
    }
    assert(wanted.take(i - 2) =~= wanted);
    if told {
        Some(NetStats { rx_packets: rx, tx_packets: tx })
    } else {
        None
    }
}

/// The packets received and sent between two samples, if there are two.
pub fn since(before: Option<NetStats>, now: Option<NetStats>) -> (r: Option<(u64, u64)>)
    ensures
        r is Some <==> before is Some && now is Some,
        r is Some ==> (r->0).0 == (if now->0.rx_packets >= before->0.rx_packets {
            now->0.rx_packets - before->0.rx_packets
        } else {
            0
        }) && (r->0).1 == (if now->0.tx_packets >= before->0.tx_packets {
            now->0.tx_packets - before->0.tx_packets
        } else {
            0
        }),
{
    match (before, now) {
        (Some(b), Some(n)) => Some(
            (n.rx_packets.saturating_sub(b.rx_packets), n.tx_packets.saturating_sub(b.tx_packets)),
        ),
        _ => None,
    }
}

/// What went over the network between two samples is what the counters rose by; there is
/// nothing to tell without two samples.
pub proof fn counters_are_compared(before: Option<NetStats>, now: Option<NetStats>, r: Option<(u64, u64)>)
    requires
        call_ensures(since, (before, now), r),
    ensures
        r is Some <==> before is Some && now is Some,
        r is Some && now->0.rx_packets >= before->0.rx_packets ==> (r->0).0 == now->0.rx_packets - before->0.rx_packets,
        r is Some && now->0.tx_packets >= before->0.tx_packets ==> (r->0).1 == now->0.tx_packets - before->0.tx_packets,
        r is Some && now->0.rx_packets < before->0.rx_packets ==> (r->0).0 == 0,
        r is Some && now->0.tx_packets < before->0.tx_packets ==> (r->0).1 == 0,
{
}

/// The packets that were received stand in the second column behind the name of an
/// interface, and those that were sent in the tenth; the loopback interface does not count.
pub proof fn columns_are_told_apart(name: Seq<char>, fields: Seq<char>)
    requires
        !name.contains(':'),
    ensures
        ({
            let line = name.push(':') + fields;
            let w = text::words(fields);
            &&& text::trimmed(name) != "lo"@ && w.len() >= 10 ==> counters(line) == (field(w[1]), field(w[9]))
            &&& text::trimmed(name) == "lo"@ || w.len() < 10 ==> counters(line) == (0int, 0int)
        }),
{
    let line = name.push(':') + fields;
    text::lemma_found(name, ':', fields);
    assert(line.take(name.len() as int) =~= name);
    assert(line.skip(name.len() as int + 1) =~= fields);
}

/// What one more line tells is added to what the lines before it told.
pub proof fn one_more_line_is_added(lines: Seq<Seq<char>>, line: Seq<char>)
    ensures
        totals(lines.push(line)).0 == totals(lines).0 + counters(line).0,
        totals(lines.push(line)).1 == totals(lines).1 + counters(line).1,
        totals(Seq::<Seq<char>>::empty()) == (0int, 0int),
{
    assert(lines.push(line).drop_last() =~= lines);
}

/// A sample adds up all lines but the first two, as far as the sums can be held; a text
/// without the line of an interface gives none.
pub proof fn a_sample_adds_up_its_lines(contents: &str, r: Option<NetStats>, none: Option<NetStats>, i: int)
    requires
        call_ensures(sample, (Some(contents),), r),
        call_ensures(sample, (None,), none),
    ensures
        none is None,
        ({
            let lines = text::pieces(contents@, '\n');
            &&& lines.len() <= 2 ==> r is None
            &&& 2 <= i < lines.len() && has_packet_columns(lines[i]) ==> r is Some
            &&& r is Some && lines.len() > 2 && 0 <= totals(lines.skip(2)).0 <= u64::MAX ==> r->0.rx_packets == totals(
                lines.skip(2),
            ).0
            &&& r is Some && lines.len() > 2 && 0 <= totals(lines.skip(2)).1 <= u64::MAX ==> r->0.tx_packets == totals(
                lines.skip(2),
            ).1
        }),
{
    let lines = text::pieces(contents@, '\n');
    if 2 <= i < lines.len() && has_packet_columns(lines[i]) {
        let own = interface_lines(contents@);
        assert(own[i - 2] == lines[i]);
        assert(has_packet_columns(own[i - 2]));
    }
}

} // verus!
