//! Disassembling a run of addresses.
//!
//! A cursor says which address it needs to be told about, takes in what stands there, and
//! goes on until it has as many lines as were asked for or the addresses end.

use crate::number;
use crate::number::hex_address;
use crate::text::{concat2, concat3};
use vstd::prelude::*;
use vstd::string::*;

verus! {

/// What stands at an address.
#[derive(Debug, Clone)]
pub struct HeadFacts<T = String> {
    /// The disassembly, where the address has one.
    pub line: Option<T>,
    /// The length of the instruction, where there is one.
    pub insn_len: Option<u64>,
    /// The next address that has anything, where there is no instruction.
    pub next_head: Option<u64>,
}

impl View for HeadFacts<String> {
    type V = HeadFacts<Seq<char>>;

    open spec fn view(&self) -> HeadFacts<Seq<char>> {
        HeadFacts {
            line: self.line.deep_view(),
            insn_len: self.insn_len,
            next_head: self.next_head,
        }
    }
}

/// A line of disassembly: the address, a tab, and what stands there.
pub open spec fn line_text(address: u64, line: Seq<char>) -> Seq<char> {
    number::address_text(address as nat) + ":\t"@ + line
}

/// The address that follows: past the instruction, else the next head, as long as it lies
/// ahead.
pub open spec fn address_after(address: u64, facts: HeadFacts<Seq<char>>) -> Option<u64> {
    match (facts.insn_len, facts.next_head) {
        (Some(len), _) => Some((address + len) as u64),
        (None, Some(next)) if next > address => Some(next),
        _ => None,
    }
}

/// Whether the address past the instruction is an address.
pub open spec fn stays_in_range(address: u64, facts: HeadFacts<Seq<char>>) -> bool {
    facts.line is Some && facts.insn_len is Some ==> address + facts.insn_len->0 <= u64::MAX
}

/// At most `count` lines from `address` on, in a database that holds `heads`.
pub open spec fn listing(
    heads: spec_fn(u64) -> HeadFacts<Seq<char>>,
    address: u64,
    count: nat,
) -> Seq<Seq<char>>
    decreases count,
{
    match heads(address).line {
        Some(line) if count > 0 => seq![line_text(address, line)] + match address_after(
            address,
            heads(address),
        ) {
            Some(next) => listing(heads, next, (count - 1) as nat),
            None => Seq::empty(),
        },
        _ => Seq::empty(),
    }
}

/// Lines joined by line breaks.
pub open spec fn joined(lines: Seq<Seq<char>>) -> Seq<char>
    decreases lines.len(),
{
    if lines.len() == 0 {
        Seq::empty()
    } else if lines.len() == 1 {
        lines[0]
    } else {
        joined(lines.drop_last()) + "\n"@ + lines.last()
    }
}

/// Where a disassembly stands.
pub struct CursorView {
    pub start: u64,
    /// The address that comes next, unless the end was reached.
    pub next: Option<u64>,
    /// How many lines may still come.
    pub left: nat,
    pub lines: Seq<Seq<char>>,
}

impl CursorView {
    /// The address that is to be told about.
    pub open spec fn wanted(self) -> Option<u64> {
        if self.left > 0 {
            self.next
        } else {
            None
        }
    }

    /// One while an address comes next, none after the end was reached.
    pub open spec fn pending(self) -> nat {
        if self.next is Some {
            1
        } else {
            0
        }
    }

    /// The disassembly after what stands at the wanted address is known.
    pub open spec fn fed(self, facts: HeadFacts<Seq<char>>) -> CursorView {
        let address = self.next->0;
        match facts.line {
            Some(line) => CursorView {
                next: address_after(address, facts),
                left: (self.left - 1) as nat,
                lines: self.lines.push(line_text(address, line)),
                ..self
            },
            None => CursorView { next: None, ..self },
        }
    }

    /// The disassembly of a database that holds `heads`, carried to its end.
    pub open spec fn completed(self, heads: spec_fn(u64) -> HeadFacts<Seq<char>>) -> CursorView
        decreases self.left, self.pending(),
    {
        match self.wanted() {
            Some(address) => self.fed(heads(address)).completed(heads),
            None => self,
        }
    }
}

/// A disassembly in progress.
pub struct DisasmCursor {
    start: u64,
    next: Option<u64>,
    left: usize,
    lines: Vec<String>,
}

impl View for DisasmCursor {
    type V = CursorView;

    closed spec fn view(&self) -> CursorView {
        CursorView {
            start: self.start,
            next: self.next,
            left: self.left as nat,
            lines: self.lines.deep_view(),
        }
    }
}

impl DisasmCursor {
    /// Starts a disassembly of at most `count` lines at `address`.
    pub fn new(address: u64, count: usize) -> (r: DisasmCursor)
        ensures
            r@ == (CursorView {
                start: address,
                next: Some(address),
                left: count as nat,
                lines: Seq::empty(),
            }),
    {
        let lines: Vec<String> = Vec::new();
        assert(lines.deep_view() =~= Seq::empty());
        DisasmCursor { start: address, next: Some(address), left: count, lines }
    }

    /// The address that is to be told about next; nothing where the disassembly is done.
    pub fn wanted(&self) -> (r: Option<u64>)
        ensures
            r == self@.wanted(),
    {
        if self.left > 0 {
            self.next
        } else {
            None
        }
    }

    /// Takes in what stands at the wanted address.
    pub fn feed(&mut self, facts: HeadFacts)
        requires
            old(self)@.wanted() is Some,
            stays_in_range(old(self)@.wanted()->0, facts@),
        ensures
            final(self)@ == old(self)@.fed(facts@),
    {
        let address: u64 = match self.next {
            Some(address) => address,
            None => 0,
        };
        match facts.line {
            Some(line) => {
                let ghost before = self.lines.deep_view();
                let shown = concat3(hex_address(address).as_str(), ":\t", line.as_str());
                self.lines.push(shown);
                assert(self.lines.deep_view() =~= before.push(line_text(address, line@)));
                self.left = self.left - 1;
                self.next = match (facts.insn_len, facts.next_head) {
                    (Some(len), _) => Some(address + len),
                    (None, Some(next)) => if next > address {
                        Some(next)
                    } else {
                        None
                    },
                    (None, None) => None,
                };
            },
            None => {
                self.next = None;
            },
        }
    }

    /// The lines that were collected; an address without a line is out of range.
    pub fn finish(self) -> (r: Result<String, String>)
        ensures
            if self@.lines.len() > 0 {
                r is Ok && r->Ok_0@ == joined(self@.lines)
            } else {
                r is Err && r->Err_0@ == "Address out of range: "@ + number::address_text(
                    self@.start as nat,
                )
            },
    {
        if self.lines.len() == 0 {
            return Err(concat2("Address out of range: ", hex_address(self.start).as_str()));
        }
        Ok(join_lines(&self.lines))
    }
}

fn join_lines(lines: &Vec<String>) -> (r: String)
    requires
        lines@.len() > 0,
    ensures
        r@ == joined(lines.deep_view()),
{
    let ghost all = lines.deep_view();
    let mut r = lines[0].clone();
    let mut i: usize = 1;
    assert(all.take(1) =~= seq![all[0]]);
    while i < lines.len()
        invariant
            all == lines.deep_view(),
            1 <= i <= lines.len(),
            r@ == joined(all.take(i as int)),
        decreases lines.len() - i,
    {
        assert(all.take(i + 1).drop_last() =~= all.take(i as int));
        r.append("\n");
        r.append(lines[i].as_str());
        i = i + 1;
    }
    assert(all.take(all.len() as int) =~= all);
    r
}

/// A disassembly that is told the truth about every wanted address collects the listing.
pub proof fn a_completed_disassembly_is_the_listing(
    cursor: CursorView,
    heads: spec_fn(u64) -> HeadFacts<Seq<char>>,
)
    ensures
        cursor.completed(heads).wanted() is None,
        cursor.completed(heads).start == cursor.start,
        cursor.completed(heads).lines == cursor.lines + match cursor.next {
            Some(address) => listing(heads, address, cursor.left),
            None => Seq::empty(),
        },
    decreases cursor.left, cursor.pending(),
{
    match cursor.wanted() {
        Some(address) => {
            let fed = cursor.fed(heads(address));
            a_completed_disassembly_is_the_listing(fed, heads);
            match heads(address).line {
                Some(line) => {
                    assert(cursor.completed(heads).lines =~= cursor.lines + listing(
                        heads,
                        address,
                        cursor.left,
                    ));
                },
                None => {
                    assert(cursor.completed(heads).lines =~= cursor.lines);
                },
            }
        },
        None => {
            assert(cursor.lines + Seq::empty() =~= cursor.lines);
        },
    }
}

/// A listing has no more lines than were asked for, and none only where the first address has
/// none.
pub proof fn a_listing_keeps_to_its_count(
    heads: spec_fn(u64) -> HeadFacts<Seq<char>>,
    address: u64,
    count: nat,
)
    ensures
        listing(heads, address, count).len() <= count,
        listing(heads, address, count).len() == 0 <==> count == 0 || heads(address).line is None,
    decreases count,
{
    if count > 0 && heads(address).line is Some {
        if let Some(next) = address_after(address, heads(address)) {
            a_listing_keeps_to_its_count(heads, next, (count - 1) as nat);
        }
    }
}

/// In a listing each line shows what stands at its address. Where an instruction of `n` bytes
/// stands there, the next line is that of the address `n` bytes further on; where none does, that
/// of the next head, which lies ahead. The listing ends where it has `count` lines, where no
/// address follows, or where the address that follows has no line.
pub proof fn a_listing_goes_from_head_to_head(
    heads: spec_fn(u64) -> HeadFacts<Seq<char>>,
    address: u64,
    count: nat,
) -> (addresses: Seq<u64>)
    requires
        forall|a: u64|
            (#[trigger] heads(a)).insn_len matches Some(n) ==> a + n <= u64::MAX,
    ensures
        addresses.len() == listing(heads, address, count).len(),
        addresses.len() > 0 ==> addresses[0] == address,
        forall|i: int|
            0 <= i < addresses.len() ==> (#[trigger] heads(addresses[i])).line is Some
                && listing(heads, address, count)[i] == number::address_text(addresses[i] as nat)
                + ":\t"@ + heads(addresses[i]).line->0,
        forall|i: int|
            0 <= i < addresses.len() - 1 ==> match (#[trigger] heads(addresses[i])).insn_len {
                Some(n) => addresses[i + 1] == addresses[i] + n,
                None => heads(addresses[i]).next_head == Some(addresses[i + 1]) && addresses[i]
                    < addresses[i + 1],
            },
        0 < addresses.len() < count ==> {
            let last = addresses.last();
            match heads(last).insn_len {
                Some(n) => heads((last + n) as u64).line is None,
                None => match heads(last).next_head {
                    Some(next) => next > last ==> heads(next).line is None,
                    None => true,
                },
            }
        },
        addresses.len() == 0 && count > 0 ==> heads(address).line is None,
    decreases count,
{
    match heads(address).line {
        Some(line) if count > 0 => {
            let rest = match address_after(address, heads(address)) {
                Some(next) => a_listing_goes_from_head_to_head(heads, next, (count - 1) as nat),
                None => Seq::empty(),
            };
            let addresses = seq![address] + rest;
            assert(addresses.skip(1) =~= rest);
            assert forall|i: int| 0 <= i < addresses.len() implies (#[trigger] heads(
                addresses[i],
            )).line is Some && listing(heads, address, count)[i] == number::address_text(
                addresses[i] as nat,
            ) + ":\t"@ + heads(addresses[i]).line->0 by {
                if i > 0 {
                    assert(addresses[i] == rest[i - 1]);
                    assert(heads(rest[i - 1]).line is Some);
                }
            }
            assert forall|i: int| 0 <= i < addresses.len() - 1 implies match (#[trigger] heads(
                addresses[i],
            )).insn_len {
                Some(n) => addresses[i + 1] == addresses[i] + n,
                None => heads(addresses[i]).next_head == Some(addresses[i + 1]) && addresses[i]
                    < addresses[i + 1],
            } by {
                if i > 0 {
                    assert(addresses[i] == rest[i - 1]);
                    assert(addresses[i + 1] == rest[i]);
                    assert(heads(rest[i - 1]).line is Some);
                }
            }
            assert(rest.len() > 0 ==> addresses.last() == rest.last());
            addresses
        },
        _ => Seq::empty(),
    }
}

/// A disassembly goes on `n` bytes further where it is told of an instruction of `n` bytes, at
/// the next head where it is told of one that lies ahead, and no further otherwise. Each line
/// that it is told counts once, and is added behind the others with its address.
pub proof fn a_disassembly_goes_from_head_to_head(
    cursor: CursorView,
    facts: HeadFacts<Seq<char>>,
)
    requires
        cursor.wanted() is Some,
        facts.insn_len matches Some(n) ==> cursor.wanted()->0 + n <= u64::MAX,
    ensures
        cursor.left > 0 && cursor.wanted() == cursor.next,
        cursor.fed(facts).start == cursor.start,
        match facts.line {
            Some(line) => {
                &&& cursor.fed(facts).left == cursor.left - 1
                &&& cursor.fed(facts).lines.drop_last() == cursor.lines
                &&& cursor.fed(facts).lines.last() == number::address_text(
                    cursor.next->0 as nat,
                ) + ":\t"@ + line
                &&& match (facts.insn_len, cursor.fed(facts).next) {
                    (Some(n), Some(next)) => next == cursor.next->0 + n,
                    (Some(_), None) => false,
                    (None, Some(next)) => facts.next_head == Some(next) && next > cursor.next->0,
                    (None, None) => facts.next_head matches Some(next) ==> next
                        <= cursor.next->0,
                }
            },
            None => cursor.fed(facts).next is None && cursor.fed(facts).lines == cursor.lines,
        },
{
    assert(cursor.fed(facts).lines.len() > 0 ==> facts.line is Some ==> cursor.fed(
        facts,
    ).lines.drop_last() =~= cursor.lines);
}

/// Lines stand in their order, with one line break between two of them and none around them.
pub proof fn lines_are_joined_by_line_breaks(before: Seq<Seq<char>>, after: Seq<Seq<char>>)
    ensures
        before.len() == 1 ==> joined(before) == before[0],
        before.len() > 0 && after.len() > 0 ==> joined(before + after) == joined(before)
            + seq!['\n'] + joined(after),
    decreases after.len(),
{
    reveal_strlit("\n");
    if before.len() > 0 && after.len() > 0 {
        let all = before + after;
        let rest = after.drop_last();
        assert(all.drop_last() =~= before + rest);
        assert(all.last() == after.last());
        assert("\n"@ =~= seq!['\n']);
        if rest.len() == 0 {
            assert(before + rest =~= before);
        } else {
            lines_are_joined_by_line_breaks(before, rest);
            assert(joined(all) =~= joined(before) + seq!['\n'] + (joined(rest) + seq!['\n']
                + after.last()));
        }
    }
}

} // verus!
