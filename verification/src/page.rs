//! Pages: the bounded byte containers a table's rows are packed into, and the
//! choice of the page that takes the next row.

use crate::decimal::{
    all_digits, decimal_digits, digits_from, digits_value, lemma_decimal_digits,
    lemma_digits_value_nonnegative, parse_digits, push_decimal,
};
use vstd::prelude::*;
use vstd::seq_lib::{to_multiset_build, to_multiset_insert};
use vstd::string::StrSliceExecFns;
use vstd::string::StringExecFns;

verus! {

/// The capacity of a page in bytes.
pub const PAGE_SIZE: usize = 4096;

/// One page of a table: its number, counted from 0, and what it holds.
#[derive(Clone, Debug, PartialEq, Eq)]
pub struct Page {
    pub number: u64,
    pub content: Vec<u8>,
}

/// A write that the page store is to carry out: append `bytes` to the page
/// numbered `page_number`, creating the page if it does not exist.
#[derive(Clone, Debug, PartialEq, Eq)]
pub struct PageWrite {
    pub page_number: u64,
    pub bytes: Vec<u8>,
}

/// What a `PageWrite` stands for.
pub struct PageWriteSpec {
    pub page_number: int,
    pub bytes: Seq<u8>,
}

impl View for PageWrite {
    type V = PageWriteSpec;

    open spec fn view(&self) -> PageWriteSpec {
        PageWriteSpec { page_number: self.page_number as int, bytes: self.bytes@ }
    }
}

impl DeepView for PageWrite {
    type V = PageWriteSpec;

    open spec fn deep_view(&self) -> PageWriteSpec {
        self@
    }
}

/// The size of the last of these pages, 0 where there is none.
pub open spec fn tail_size(page_sizes: Seq<u64>) -> int {
    if page_sizes.len() > 0 {
        page_sizes.last() as int
    } else {
        0
    }
}

/// The number of the page that takes a row of this estimated size, where
/// `page_count` pages exist and the last one holds `last_size` bytes: the
/// last page while the row still fits it, a new page after it otherwise.
/// With no page yet, page 0.
pub open spec fn target_page_spec(page_count: nat, last_size: int, estimate: int) -> nat {
    if page_count > 0 && last_size + estimate < PAGE_SIZE {
        (page_count - 1) as nat
    } else {
        page_count
    }
}

/// One insert as the page store sees it: the row's estimated size, which
/// decides the page, and the bytes that are appended.
pub struct Insert {
    pub estimate: nat,
    pub bytes: Seq<u8>,
}

/// The size of the last page of a heap, 0 where it has no page.
pub open spec fn heap_tail_size(pages: Seq<Seq<u8>>) -> int {
    if pages.len() > 0 {
        pages.last().len() as int
    } else {
        0
    }
}

/// A heap of pages after a write is carried out: the bytes are appended to
/// the page of that number, which is created where it is the next one.
pub open spec fn apply_write(pages: Seq<Seq<u8>>, write: PageWriteSpec) -> Seq<Seq<u8>> {
    if 0 <= write.page_number < pages.len() {
        pages.update(write.page_number, pages[write.page_number] + write.bytes)
    } else {
        pages.push(write.bytes)
    }
}

/// The page that takes an insert into this heap.
pub open spec fn heap_target(pages: Seq<Seq<u8>>, estimate: nat) -> nat {
    target_page_spec(pages.len(), heap_tail_size(pages), estimate as int)
}

/// Whether an insert into this heap rolls over: the heap has a last page,
/// and the row no longer fits it.
pub open spec fn rolls_over(pages: Seq<Seq<u8>>, estimate: nat) -> bool {
    pages.len() > 0 && !(heap_tail_size(pages) + estimate < PAGE_SIZE)
}

/// A heap after one insert.
pub open spec fn heap_insert(pages: Seq<Seq<u8>>, insert: Insert) -> Seq<Seq<u8>> {
    apply_write(
        pages,
        PageWriteSpec {
            page_number: heap_target(pages, insert.estimate) as int,
            bytes: insert.bytes,
        },
    )
}

/// The heap that these inserts, made in order, build from no page at all.
pub open spec fn heap_after(inserts: Seq<Insert>) -> Seq<Seq<u8>>
    decreases inserts.len(),
{
    if inserts.len() == 0 {
        Seq::empty()
    } else {
        heap_insert(heap_after(inserts.drop_last()), inserts.last())
    }
}

/// How many of these inserts, made in order into no page at all, roll over.
pub open spec fn rollovers(inserts: Seq<Insert>) -> nat
    decreases inserts.len(),
{
    if inserts.len() == 0 {
        0
    } else if rolls_over(heap_after(inserts.drop_last()), inserts.last().estimate) {
        rollovers(inserts.drop_last()) + 1
    } else {
        rollovers(inserts.drop_last())
    }
}

/// An insert goes to the last page while the row still fits it and to a new
/// page right after it otherwise; either way the row's bytes land whole at
/// the end of that one page, and every other page stays as it was.
pub proof fn lemma_heap_insert(pages: Seq<Seq<u8>>, insert: Insert)
    ensures
        ({
            let target = heap_target(pages, insert.estimate) as int;
            let after = heap_insert(pages, insert);
            &&& target == if rolls_over(pages, insert.estimate) || pages.len() == 0 {
                pages.len() as int
            } else {
                pages.len() - 1
            }
            &&& after.len() == target + 1
            &&& forall|i: int| 0 <= i < target ==> #[trigger] after[i] == pages[i]
            &&& after[target] == if target < pages.len() {
                pages[target] + insert.bytes
            } else {
                insert.bytes
            }
        }),
{
}

/// After one insert or more into no page at all, the heap has one page more
/// than there were rollovers.
pub proof fn lemma_page_count(inserts: Seq<Insert>)
    requires
        inserts.len() > 0,
    ensures
        heap_after(inserts).len() == rollovers(inserts) + 1,
    decreases inserts.len(),
{
    let earlier = inserts.drop_last();
    lemma_heap_insert(heap_after(earlier), inserts.last());
    if earlier.len() > 0 {
        lemma_page_count(earlier);
    } else {
        assert(heap_after(earlier).len() == 0);
        assert(rollovers(earlier) == 0);
    }
}

/// Chooses the page for a row of this estimated size, given the sizes of the
/// table's pages in page order.
pub fn target_page(page_sizes: &Vec<u64>, estimate: usize) -> (page: u64)
    ensures
        page == target_page_spec(page_sizes@.len(), tail_size(page_sizes@), estimate as int),
{
    let count = page_sizes.len();
    if count > 0 && estimate < PAGE_SIZE && page_sizes[count - 1] < (PAGE_SIZE - estimate) as u64 {
        (count - 1) as u64
    } else {
        count as u64
    }
}

/// What the name of every page file starts with.
pub open spec fn page_prefix() -> Seq<char> {
    seq!['p', 'a', 'g', 'e', '_']
}

/// The file name of the page of this number: the prefix, then the number in
/// decimal digits without leading zeros.
pub open spec fn page_file_name_spec(number: nat) -> Seq<char> {
    page_prefix() + decimal_digits(number)
}

/// The number of the page that a file of this name holds; `None` where the
/// name is not that of a page file.
pub open spec fn page_number_of(name: Seq<char>) -> Option<u64> {
    if name.len() > 5 && name.take(5) == page_prefix() && (name.len() == 6 || name[5] != '0') {
        match digits_from(name, 5, u64::MAX as int) {
            Some(n) => Some(n as u64),
            None => None,
        }
    } else {
        None
    }
}

/// The numbers of the page files among these names, in the order of the
/// names.
pub open spec fn listed_pages(names: Seq<Seq<char>>) -> Seq<u64>
    decreases names.len(),
{
    if names.len() == 0 {
        Seq::empty()
    } else {
        match page_number_of(names.last()) {
            Some(n) => listed_pages(names.drop_last()).push(n),
            None => listed_pages(names.drop_last()),
        }
    }
}

/// Whether these numbers stand in ascending order.
pub open spec fn ascending(numbers: Seq<u64>) -> bool {
    forall|i: int, j: int| 0 <= i <= j < numbers.len() ==> numbers[i] <= numbers[j]
}

/// The digits of a positive number do not start with a zero.
pub proof fn lemma_decimal_digits_leading(n: nat)
    requires
        n > 0,
    ensures
        decimal_digits(n).len() > 0,
        decimal_digits(n)[0] != '0',
    decreases n,
{
    lemma_decimal_digits(n);
    if n >= 10 {
        lemma_decimal_digits_leading(n / 10);
        lemma_decimal_digits(n / 10);
    }
}

/// Digits that do not start with a zero denote a positive number.
pub proof fn lemma_leading_digit(s: Seq<char>)
    requires
        s.len() > 0,
        all_digits(s),
        s[0] != '0',
    ensures
        digits_value(s) > 0,
    decreases s.len(),
{
    if s.len() > 1 {
        lemma_leading_digit(s.drop_last());
    } else {
        assert(s.drop_last() =~= Seq::<char>::empty());
        assert(digits_value(s.drop_last()) == 0);
    }
}

/// Digits without a leading zero are the digits of the number they denote.
pub proof fn lemma_canonical_digits(s: Seq<char>)
    requires
        s.len() > 0,
        all_digits(s),
        s.len() == 1 || s[0] != '0',
    ensures
        decimal_digits(digits_value(s) as nat) == s,
    decreases s.len(),
{
    let front = s.drop_last();
    if s.len() == 1 {
        assert(front =~= Seq::<char>::empty());
        assert(digits_value(front) == 0);
        assert(decimal_digits(digits_value(s) as nat) =~= s);
    } else {
        lemma_canonical_digits(front);
        lemma_leading_digit(front);
        assert(front.push(s.last()) =~= s);
    }
}

/// A name is that of the page of a number exactly when it is the name
/// written for that page: every page has one name, and no two pages share
/// theirs.
pub proof fn lemma_page_number_of(name: Seq<char>, number: u64)
    ensures
        page_number_of(name) == Some(number) <==> name == page_file_name_spec(number as nat),
{
    lemma_page_name_round_trip(number);
    if page_number_of(name) == Some(number) {
        let digits = name.skip(5);
        assert(digits.len() == name.len() - 5);
        assert(digits[0] == name[5]);
        assert(digits_from(name, 5, u64::MAX as int) == Some(digits_value(digits)));
        lemma_canonical_digits(digits);
        lemma_digits_value_nonnegative(digits);
        assert(digits_value(digits) == number);
        assert(name =~= name.take(5) + digits);
    }
}

/// The name written for a page is read back as that page's number.
pub proof fn lemma_page_name_round_trip(number: u64)
    ensures
        page_number_of(page_file_name_spec(number as nat)) == Some(number),
{
    let name = page_file_name_spec(number as nat);
    let digits = decimal_digits(number as nat);
    lemma_decimal_digits(number as nat);
    assert(name.take(5) =~= page_prefix());
    assert(name.skip(5) =~= digits);
    if number > 0 {
        lemma_decimal_digits_leading(number as nat);
    }
    assert(name[5] == digits[0]);
    if number == 0 {
        assert(digits.len() == 1);
    }
}

/// The file name of the page of this number.
pub fn page_file_name(number: u64) -> (name: String)
    ensures
        name@ == page_file_name_spec(number as nat),
{
    proof {
        reveal_strlit("page_");
    }
    let mut name = String::new();
    name.append("page_");
    assert(name@ =~= page_prefix());
    push_decimal(&mut name, number);
    name
}

/// Reads a page's number from the name of its file.
pub fn page_number(name: &str) -> (r: Option<u64>)
    ensures
        r == page_number_of(name@),
{
    let n = name.unicode_len();
    if n <= 5 {
        return None;
    }
    if name.get_char(0) != 'p' || name.get_char(1) != 'a' || name.get_char(2) != 'g'
        || name.get_char(3) != 'e' || name.get_char(4) != '_' {
        assert(name@.take(5)[0] == name@[0]);
        assert(name@.take(5)[1] == name@[1]);
        assert(name@.take(5)[2] == name@[2]);
        assert(name@.take(5)[3] == name@[3]);
        assert(name@.take(5)[4] == name@[4]);
        return None;
    }
    assert(name@.take(5) =~= page_prefix());
    if n > 6 && name.get_char(5) == '0' {
        return None;
    }
    parse_digits(name, 5, u64::MAX)
}

/// Enumerates a table's pages from the names found in its namespace: the
/// numbers of the page files among them, in ascending order of the numbers,
/// whatever the order of the names.
pub fn enumerate_pages(names: &Vec<String>) -> (pages: Vec<u64>)
    ensures
        ascending(pages@),
        pages@.to_multiset() == listed_pages(names.deep_view()).to_multiset(),
{
    let ghost all = names.deep_view();
    let mut pages: Vec<u64> = Vec::new();
    let mut i: usize = 0;
    assert(all.take(0) =~= Seq::<Seq<char>>::empty());
    while i < names.len()
        invariant
            i <= names.len(),
            all == names.deep_view(),
            ascending(pages@),
            pages@.to_multiset() == listed_pages(all.take(i as int)).to_multiset(),
        decreases names.len() - i,
    {
        proof {
            assert(all.take(i + 1).drop_last() =~= all.take(i as int));
            assert(all.take(i + 1).last() == names[i as int]@);
        }
        match page_number(names[i].as_str()) {
            Some(number) => {
                let mut at: usize = 0;
                while at < pages.len() && pages[at] <= number
                    invariant
                        at <= pages.len(),
                        ascending(pages@),
                        forall|k: int| 0 <= k < at ==> pages[k] <= number,
                    decreases pages.len() - at,
                {
                    at = at + 1;
                }
                let ghost before = pages@;
                pages.insert(at, number);
                proof {
                    to_multiset_insert(before, at as int, number);
                    to_multiset_build(listed_pages(all.take(i as int)), number);
                    assert forall|a: int, b: int| 0 <= a <= b < pages.len() implies pages[a]
                        <= pages[b] by {
                        if a < at && b > at {
                            assert(before[a] <= number);
                            assert(before[at as int] <= before[b - 1]);
                        } else if a > at {
                            assert(before[a - 1] <= before[b - 1]);
                        } else if b < at {
                            assert(before[a] <= before[b]);
                        }
                    }
                }
            },
            None => {},
        }
        i = i + 1;
    }
    assert(all.take(names.len() as int) =~= all);
    pages
}

} // verus!
