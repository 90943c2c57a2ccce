//! A listing of the sections of an ELF file, in the order of their addresses.

use vstd::prelude::*;

use crate::binary::LoadedBinary;
use crate::elf_file::{elf_section_name, elf_sections};
use crate::elf_file::{read_section_name, read_sections, SectionHeader};
use crate::serial::texts;
use crate::text::{address_string, decimal};
use crate::text::{address_text, push_decimal};

verus! {

/// The headers with the given address, in order.
pub open spec fn at_address(headers: Seq<SectionHeader>, addr: u64) -> Seq<SectionHeader> {
    headers.filter(|h: SectionHeader| h.sh_addr == addr)
}

/// A header behind others adds to those at its own address, at the end, and to no others.
pub proof fn law_at_address(headers: Seq<SectionHeader>, header: SectionHeader, addr: u64)
    ensures
        at_address(Seq::empty(), addr).len() == 0,
        header.sh_addr == addr ==> at_address(headers.push(header), addr) == at_address(
            headers,
            addr,
        ).push(header),
        header.sh_addr != addr ==> at_address(headers.push(header), addr) == at_address(
            headers,
            addr,
        ),
{
    reveal(Seq::filter);
    assert(headers.push(header).drop_last() =~= headers);
}

/// `sorted` holds the given headers in the order of their addresses; headers with the same address
/// keep their order.
pub open spec fn sorted_by_address(
    headers: Seq<SectionHeader>,
    sorted: Seq<SectionHeader>,
) -> bool {
    &&& forall|i: int, j: int|
        0 <= i <= j < sorted.len() ==> sorted[i].sh_addr <= sorted[j].sh_addr
    &&& forall|addr: u64| #[trigger] at_address(sorted, addr) == at_address(headers, addr)
}

/// Sorts section headers by address, keeping the order of those with the same address.
pub fn sort_by_address(headers: &Vec<SectionHeader>) -> (res: Vec<SectionHeader>)
    ensures
        sorted_by_address(headers@, res@),
        forall|i: int, j: int|
            0 <= i <= j < res@.len() ==> res@[i].sh_addr <= res@[j].sh_addr,
        forall|addr: u64| #[trigger] at_address(res@, addr) == at_address(headers@, addr),
        res@.to_multiset() == headers@.to_multiset(),
{
    let mut res: Vec<SectionHeader> = Vec::new();
    let mut i: usize = 0;
    assert(headers@.take(0) =~= res@);
    while i < headers.len()
        invariant
            i <= headers@.len(),
            sorted_by_address(headers@.take(i as int), res@),
        decreases headers@.len() - i,
    {
        let header: SectionHeader = headers[i];
        let mut at: usize = res.len();
        while at > 0 && res[at - 1].sh_addr > header.sh_addr
            invariant
                at <= res@.len(),
                forall|k: int| at <= k < res@.len() ==> res@[k].sh_addr > header.sh_addr,
            decreases at,
        {
            at -= 1;
        }
        proof {
            lemma_insert_keeps_groups(headers@.take(i as int), res@, at as int, header);
            assert(headers@.take(i + 1) =~= headers@.take(i as int).push(header));
        }
        res.insert(at, header);
        i += 1;
    }
    assert(headers@.take(headers@.len() as int) =~= headers@);
    proof {
        law_sorting_keeps_everything(headers@, res@);
    }
    res
}

/// Sorting neither loses a header nor makes one up, and what has the same address stays in order.
pub proof fn law_sorting_keeps_everything(
    headers: Seq<SectionHeader>,
    sorted: Seq<SectionHeader>,
)
    requires
        sorted_by_address(headers, sorted),
    ensures
        sorted.to_multiset() == headers.to_multiset(),
        sorted.len() == headers.len(),
        forall|i: int, j: int|
            0 <= i <= j < sorted.len() ==> sorted[i].sh_addr <= sorted[j].sh_addr,
        forall|addr: u64| #[trigger] at_address(sorted, addr) == at_address(headers, addr),
{
    assert forall|h: SectionHeader| #[trigger]
        sorted.to_multiset().count(h) == headers.to_multiset().count(h) by {
        assert(at_address(sorted, h.sh_addr) == at_address(headers, h.sh_addr));
        lemma_count_at_address(sorted, h);
        lemma_count_at_address(headers, h);
    }
    assert(sorted.to_multiset() =~= headers.to_multiset());
    sorted.to_multiset_ensures();
    headers.to_multiset_ensures();
}

proof fn lemma_count_at_address(headers: Seq<SectionHeader>, header: SectionHeader)
    ensures
        headers.to_multiset().count(header) == at_address(
            headers,
            header.sh_addr,
        ).to_multiset().count(header),
    decreases headers.len(),
{
    broadcast use vstd::seq_lib::group_to_multiset_ensures;

    reveal(Seq::filter);
    if headers.len() > 0 {
        let (front, last) = (headers.drop_last(), headers.last());
        lemma_count_at_address(front, header);
        assert(headers =~= front.push(last));
    }
}

proof fn lemma_insert_keeps_groups(
    headers: Seq<SectionHeader>,
    sorted: Seq<SectionHeader>,
    at: int,
    header: SectionHeader,
)
    requires
        sorted_by_address(headers, sorted),
        0 <= at <= sorted.len(),
        at > 0 ==> sorted[at - 1].sh_addr <= header.sh_addr,
        forall|k: int| at <= k < sorted.len() ==> sorted[k].sh_addr > header.sh_addr,
    ensures
        sorted_by_address(headers.push(header), sorted.insert(at, header)),
{
    let result = sorted.insert(at, header);
    let (before, after) = (sorted.take(at), sorted.skip(at));
    assert forall|addr: u64| #[trigger]
        at_address(result, addr) == at_address(headers.push(header), addr) by {
        let pred = |h: SectionHeader| h.sh_addr == addr;
        assert(result =~= before.push(header) + after);
        assert(sorted =~= before + after);
        Seq::filter_distributes_over_add(before.push(header), after, pred);
        Seq::filter_distributes_over_add(before, after, pred);
        reveal(Seq::filter);
        assert(before.push(header).drop_last() =~= before);
        assert(headers.push(header).drop_last() =~= headers);
        if addr == header.sh_addr {
            lemma_nothing_at(after, addr);
        }
        assert(at_address(sorted, addr) == at_address(headers, addr));
        assert(at_address(result, addr) =~= at_address(headers.push(header), addr));
    }
}

proof fn lemma_nothing_at(headers: Seq<SectionHeader>, addr: u64)
    requires
        forall|k: int| 0 <= k < headers.len() ==> headers[k].sh_addr != addr,
    ensures
        at_address(headers, addr) == Seq::<SectionHeader>::empty(),
    decreases headers.len(),
{
    reveal(Seq::filter);
    if headers.len() > 0 {
        lemma_nothing_at(headers.drop_last(), addr);
    }
}

/// There is only one such order.
pub proof fn law_sorting_is_unique(
    headers: Seq<SectionHeader>,
    first: Seq<SectionHeader>,
    second: Seq<SectionHeader>,
)
    requires
        sorted_by_address(headers, first),
        sorted_by_address(headers, second),
    ensures
        first == second,
{
    assert forall|addr: u64| #[trigger] at_address(first, addr) == at_address(second, addr) by {
        assert(at_address(first, addr) == at_address(headers, addr));
        assert(at_address(second, addr) == at_address(headers, addr));
    }
    lemma_sorted_groups_determine(first, second);
}

proof fn lemma_sorted_groups_determine(first: Seq<SectionHeader>, second: Seq<SectionHeader>)
    requires
        forall|i: int, j: int| 0 <= i <= j < first.len() ==> first[i].sh_addr <= first[j].sh_addr,
        forall|i: int, j: int|
            0 <= i <= j < second.len() ==> second[i].sh_addr <= second[j].sh_addr,
        forall|addr: u64| #[trigger] at_address(first, addr) == at_address(second, addr),
    ensures
        first == second,
    decreases first.len(),
{
    if first.len() == 0 {
        if second.len() > 0 {
            lemma_same_group_last(second, first);
        }
        assert(first =~= second);
    } else {
        lemma_same_group_last(first, second);
        lemma_same_group_last(second, first);
        let (a, b) = (first.last(), second.last());
        assert(a.sh_addr == b.sh_addr);
        let addr = a.sh_addr;
        reveal(Seq::filter);
        assert(at_address(first, addr).last() == a);
        assert(at_address(second, addr).last() == b);
        assert(a == b) by {
            assert(at_address(first, addr) == at_address(second, addr));
        }
        let (p, q) = (first.drop_last(), second.drop_last());
        assert forall|other: u64| #[trigger] at_address(p, other) == at_address(q, other) by {
            assert(at_address(first, other) == at_address(second, other));
            if other == addr {
                assert(at_address(first, other) == at_address(p, other).push(a));
                assert(at_address(second, other) == at_address(q, other).push(a));
                assert(at_address(p, other) =~= at_address(first, other).drop_last());
                assert(at_address(q, other) =~= at_address(second, other).drop_last());
            }
        }
        lemma_sorted_groups_determine(p, q);
        assert(first =~= p.push(a));
        assert(second =~= q.push(b));
    }
}

/// Where two sorted lists have the same groups, the last address of the one occurs in the other,
/// whose last address is then at least as large.
proof fn lemma_same_group_last(first: Seq<SectionHeader>, second: Seq<SectionHeader>)
    requires
        first.len() > 0,
        forall|i: int, j: int|
            0 <= i <= j < second.len() ==> second[i].sh_addr <= second[j].sh_addr,
        forall|addr: u64| #[trigger] at_address(first, addr) == at_address(second, addr),
    ensures
        second.len() > 0,
        first.last().sh_addr <= second.last().sh_addr,
{
    let addr = first.last().sh_addr;
    reveal(Seq::filter);
    assert(at_address(first, addr).len() > 0);
    assert(at_address(first, addr) == at_address(second, addr));
    if forall|k: int| 0 <= k < second.len() ==> second[k].sh_addr != addr {
        lemma_nothing_at(second, addr);
    }
    let k = choose|k: int| 0 <= k < second.len() && second[k].sh_addr == addr;
    assert(second[k].sh_addr <= second.last().sh_addr);
}

/// The line that is shown for a section.
pub open spec fn section_line(header: SectionHeader, name: Seq<char>) -> Seq<char> {
    address_string(header.sh_addr as nat) + ": "@ + name + ", size "@ + decimal(
        header.sh_size as nat,
    )
}

/// The names that a vector of names stands for.
pub open spec fn name_texts(names: Seq<Option<String>>) -> Seq<Option<Seq<char>>> {
    names.map_values(
        |name: Option<String>|
            match name {
                Some(text) => Some(text@),
                None => None,
            },
    )
}

/// Each name stands for its text, and a missing name for none.
pub proof fn law_name_texts(names: Seq<Option<String>>)
    ensures
        name_texts(names).len() == names.len(),
        forall|i: int|
            0 <= i < names.len() ==> match #[trigger] names[i] {
                Some(text) => name_texts(names)[i] == Some(text@),
                None => name_texts(names)[i] is None,
            },
{
}

/// The lines for sections that are loaded at an address, up to the first section that has no
/// name, and whether there was none such.
pub open spec fn listing(headers: Seq<SectionHeader>, names: Seq<Option<Seq<char>>>) -> (
    Seq<Seq<char>>,
    bool,
)
    decreases headers.len(),
{
    if headers.len() == 0 {
        (Seq::empty(), true)
    } else {
        match names[0] {
            None => (Seq::empty(), false),
            Some(name) => {
                let (rest, complete) = listing(headers.skip(1), names.skip(1));
                if headers[0].sh_addr != 0 {
                    (seq![section_line(headers[0], name)] + rest, complete)
                } else {
                    (rest, complete)
                }
            },
        }
    }
}

/// Nothing to list gives no line.
pub proof fn law_empty_listing(names: Seq<Option<Seq<char>>>)
    ensures
        listing(Seq::empty(), names).0.len() == 0,
        listing(Seq::empty(), names).1,
{
}

/// How a section at the front changes a listing: without a name it ends it there; without an
/// address it is passed over; otherwise its address, name and size make up the first line.
pub proof fn law_listing_step(
    header: SectionHeader,
    name: Option<Seq<char>>,
    headers: Seq<SectionHeader>,
    names: Seq<Option<Seq<char>>>,
)
    ensures
        ({
            let (lines, complete) = listing(seq![header] + headers, seq![name] + names);
            let (rest, rest_complete) = listing(headers, names);
            match name {
                None => lines.len() == 0 && !complete,
                Some(text) => {
                    &&& complete == rest_complete
                    &&& header.sh_addr == 0 ==> lines == rest
                    &&& header.sh_addr != 0 ==> {
                        &&& lines.len() == rest.len() + 1
                        &&& lines.skip(1) == rest
                        &&& lines[0] == address_string(header.sh_addr as nat) + ": "@ + text
                            + ", size "@ + decimal(header.sh_size as nat)
                    }
                },
            }
        }),
{
    assert((seq![header] + headers).skip(1) =~= headers);
    assert((seq![name] + names).skip(1) =~= names);
    let (rest, _) = listing(headers, names);
    if let Some(text) = name {
        assert((seq![section_line(header, text)] + rest).skip(1) =~= rest);
    }
}

/// A listing of sections.
pub struct SectionListing {
    pub lines: Vec<String>,
    /// Whether every section had a name. If not, the listing ends before the first that had none.
    pub complete: bool,
}

/// Why there is no listing.
#[derive(Clone, Copy, Debug, PartialEq, Eq, Structural)]
pub enum ListingError {
    /// The section headers cannot be read.
    UnreadableHeaders,
    /// The file has no section headers.
    NoHeaders,
    /// The file has no table of section names.
    NoNames,
}

/// Writes the line for a section.
fn section_text(header: &SectionHeader, name: &str) -> (res: String)
    ensures
        res@ == section_line(*header, name@),
{
    let mut line: String = address_text(header.sh_addr);
    line.append(": ");
    line.append(name);
    line.append(", size ");
    push_decimal(&mut line, header.sh_size as u128);
    line
}

/// Lists sections with their names, in the given order.
pub fn section_lines(headers: &Vec<SectionHeader>, names: &Vec<Option<String>>) -> (res:
    SectionListing)
    requires
        headers@.len() == names@.len(),
    ensures
        texts(res.lines@) == listing(headers@, name_texts(names@)).0,
        res.complete == listing(headers@, name_texts(names@)).1,
        res.complete <==> forall|i: int| 0 <= i < names@.len() ==> names@[i] is Some,
{
    let mut lines: Vec<String> = Vec::new();
    let mut i: usize = 0;
    let ghost all = name_texts(names@);
    assert(headers@.skip(0) =~= headers@);
    assert(all.skip(0) =~= all);
    assert(texts(lines@) + listing(headers@, all).0 =~= listing(headers@, all).0);
    while i < headers.len()
        invariant
            i <= headers@.len(),
            headers@.len() == names@.len(),
            all == name_texts(names@),
            forall|k: int| 0 <= k < i ==> names@[k] is Some,
            texts(lines@) + listing(headers@.skip(i as int), all.skip(i as int)).0 == listing(
                headers@,
                all,
            ).0,
            listing(headers@.skip(i as int), all.skip(i as int)).1 == listing(headers@, all).1,
        decreases headers@.len() - i,
    {
        let ghost rest = headers@.skip(i as int);
        let ghost rest_names = all.skip(i as int);
        proof {
            assert(rest.skip(1) =~= headers@.skip(i + 1));
            assert(rest_names.skip(1) =~= all.skip(i + 1));
            assert(rest_names[0] == all[i as int]);
        }
        match &names[i] {
            None => {
                assert(texts(lines@) + listing(rest, rest_names).0 =~= texts(lines@));
                return SectionListing { lines, complete: false };
            },
            Some(name) => {
                if headers[i].sh_addr != 0 {
                    let line: String = section_text(&headers[i], name.as_str());
                    let ghost before = lines@;
                    lines.push(line);
                    proof {
                        let remaining = listing(headers@.skip(i + 1), all.skip(i + 1)).0;
                        assert(texts(lines@) =~= texts(before).push(line@));
                        assert(texts(lines@) + remaining =~= texts(before) + (seq![line@]
                            + remaining));
                    }
                }
            },
        }
        i += 1;
    }
    assert(texts(lines@) + listing(headers@.skip(i as int), all.skip(i as int)).0 =~= texts(
        lines@,
    ));
    SectionListing { lines, complete: true }
}

/// The names of sections, as far as the file's table of section names has them.
pub open spec fn names_of(file: Seq<u8>, headers: Seq<SectionHeader>) -> Seq<Option<Seq<char>>> {
    headers.map_values(|header: SectionHeader| elf_section_name(file, header.sh_name))
}

/// The lines list the file's sections in the order of their addresses.
pub open spec fn lists(
    file: Seq<u8>,
    headers: Seq<SectionHeader>,
    lines: Seq<Seq<char>>,
    complete: bool,
) -> bool {
    exists|sorted: Seq<SectionHeader>|
        {
            &&& #[trigger] sorted_by_address(headers, sorted)
            &&& listing(sorted, names_of(file, sorted)) == (lines, complete)
        }
}

/// The lines of a file are the listing of its sections, each under the name that the file has for
/// it, in whatever sorted order they are taken.
pub proof fn law_lines_of_file(
    file: Seq<u8>,
    headers: Seq<SectionHeader>,
    sorted: Seq<SectionHeader>,
    names: Seq<Option<Seq<char>>>,
    lines: Seq<Seq<char>>,
    complete: bool,
)
    requires
        lists(file, headers, lines, complete),
        sorted_by_address(headers, sorted),
        names.len() == sorted.len(),
        forall|i: int|
            0 <= i < sorted.len() ==> names[i] == elf_section_name(
                file,
                (#[trigger] sorted[i]).sh_name,
            ),
    ensures
        listing(sorted, names) == (lines, complete),
{
    let other = choose|other: Seq<SectionHeader>|
        {
            &&& #[trigger] sorted_by_address(headers, other)
            &&& listing(other, names_of(file, other)) == (lines, complete)
        };
    law_sorting_is_unique(headers, sorted, other);
    assert(names =~= names_of(file, sorted));
}

/// Lists the sections of a file in the order of their addresses.
pub fn list_sections(binary: &LoadedBinary) -> (res: Result<SectionListing, ListingError>)
    ensures
        match elf_sections(binary@) {
            None => res matches Err(error) && error == ListingError::UnreadableHeaders,
            Some((None, _)) => res matches Err(error) && error == ListingError::NoHeaders,
            Some((Some(_), false)) => res matches Err(error) && error == ListingError::NoNames,
            Some((Some(headers), true)) => res matches Ok(shown) && lists(
                binary@,
                headers,
                texts(shown.lines@),
                shown.complete,
            ),
        },
{
    let file: &[u8] = binary.bytes();
    let headers: Vec<SectionHeader> = match read_sections(file) {
        Ok((Some(headers), true)) => headers,
        Ok((Some(_), false)) => {
            return Err(ListingError::NoNames);
        },
        Ok((None, _)) => {
            return Err(ListingError::NoHeaders);
        },
        Err(_) => {
            return Err(ListingError::UnreadableHeaders);
        },
    };
    let sorted: Vec<SectionHeader> = sort_by_address(&headers);
    let mut names: Vec<Option<String>> = Vec::new();
    let mut i: usize = 0;
    while i < sorted.len()
        invariant
            i <= sorted@.len(),
            file@ == binary@,
            elf_sections(binary@) == Some((Some(headers@), true)),
            name_texts(names@) =~= names_of(binary@, sorted@).take(i as int),
        decreases sorted@.len() - i,
    {
        let name: Option<String> = match read_section_name(file, sorted[i].sh_name) {
            Ok(name) => Some(name),
            Err(_) => None,
        };
        let ghost before = names@;
        names.push(name);
        proof {
            let expected = names_of(binary@, sorted@);
            assert(name_texts(names@) =~= name_texts(before).push(expected[i as int]));
            assert(expected.take(i + 1) =~= expected.take(i as int).push(expected[i as int]));
        }
        i += 1;
    }
    assert(name_texts(names@) =~= names_of(binary@, sorted@));
    let shown: SectionListing = section_lines(&sorted, &names);
    assert(sorted_by_address(headers@, sorted@));
    Ok(shown)
}

} // verus!
