//! Building the work queue from the lines of the input, and claiming work
//! from it.

use crate::chars::{chars_of, string_of, trim, trim_bounds};
use crate::record::text_view;
use rand::seq::SliceRandom;
use std::collections::VecDeque;
use vstd::prelude::*;

verus! {

/// Whether the delimiter, a dot followed by a tab, stands at place `i` of
/// `line`.
pub open spec fn delimiter_at(line: Seq<char>, i: int) -> bool {
    0 <= i && i + 1 < line.len() && line[i] == '.' && line[i + 1] == '\t'
}

/// Whether the first delimiter of `line` stands at place `i`.
pub open spec fn first_delimiter_at(line: Seq<char>, i: int) -> bool {
    delimiter_at(line, i) && forall|j: int| 0 <= j < i ==> !delimiter_at(line, j)
}

/// The domain that a line names: what stands before its first delimiter,
/// without the white space around it. A line without the delimiter names
/// none.
pub open spec fn domain_of(line: Seq<char>) -> Option<Seq<char>> {
    if exists|i: int| first_delimiter_at(line, i) {
        Some(trim(line.take(choose|i: int| first_delimiter_at(line, i))))
    } else {
        None
    }
}

/// A line has one first delimiter at most, so the place of it gives the
/// domain.
pub proof fn lemma_domain_of(line: Seq<char>, i: int)
    requires
        first_delimiter_at(line, i),
    ensures
        domain_of(line) == Some(trim(line.take(i))),
{
    let k = choose|k: int| first_delimiter_at(line, k);
    if k < i {
        assert(!delimiter_at(line, k));
    }
    if i < k {
        assert(!delimiter_at(line, i));
    }
}

/// A line in which the delimiter stands nowhere names no domain.
pub proof fn lemma_domain_of_none(line: Seq<char>)
    requires
        forall|i: int| !delimiter_at(line, i),
    ensures
        domain_of(line) is None,
{
}

/// Reads the domain that a line names.
pub fn extract_domain(line: &str) -> (found: Option<String>)
    ensures
        text_view(found) == domain_of(line@),
{
    let v = chars_of(line);
    let n: usize = v.len();
    if n < 2 {
        proof {
            lemma_domain_of_none(v@);
        }
        return None;
    }
    let mut i: usize = 0;
    while i < n - 1
        invariant
            v@ == line@,
            n == v@.len(),
            n >= 2,
            forall|j: int| 0 <= j < i ==> !delimiter_at(v@, j),
        decreases n - i,
    {
        if v[i] == '.' && v[i + 1] == '\t' {
            let (start, end) = trim_bounds(&v, 0, i);
            proof {
                assert(v@.subrange(0, i as int) =~= v@.take(i as int));
                lemma_domain_of(v@, i as int);
            }
            return Some(string_of(&v, start, end));
        }
        i += 1;
    }
    proof {
        lemma_domain_of_none(v@);
    }
    None
}

/// The characters of each string of a list.
pub open spec fn texts(list: Seq<String>) -> Seq<Seq<char>> {
    Seq::new(list.len(), |i: int| list[i]@)
}

/// The characters of each line of an input, where a line that could not be
/// read is `None`.
pub open spec fn line_texts(lines: Seq<Option<String>>) -> Seq<Option<Seq<char>>> {
    Seq::new(lines.len(), |i: int| text_view(lines[i]))
}

/// The domains that the lines of an input name, in the order of the lines.
/// A line that could not be read and a line without the delimiter give
/// nothing.
pub open spec fn domains_of(lines: Seq<Option<Seq<char>>>) -> Seq<Seq<char>>
    decreases lines.len(),
{
    if lines.len() == 0 {
        Seq::empty()
    } else {
        let rest = domains_of(lines.drop_last());
        match lines.last() {
            Some(line) => match domain_of(line) {
                Some(domain) => rest.push(domain),
                None => rest,
            },
            None => rest,
        }
    }
}

/// Reads the domains that the lines of an input name.
pub fn collect_domains(lines: &Vec<Option<String>>) -> (list: Vec<String>)
    ensures
        texts(list@) == domains_of(line_texts(lines@)),
{
    let mut list: Vec<String> = Vec::new();
    let mut i: usize = 0;
    assert(line_texts(lines@).take(0) =~= Seq::empty());
    assert(texts(list@) =~= Seq::empty());
    while i < lines.len()
        invariant
            i <= lines@.len(),
            texts(list@) == domains_of(line_texts(lines@).take(i as int)),
        decreases lines@.len() - i,
    {
        let ghost before = texts(list@);
        proof {
            let next = line_texts(lines@).take(i + 1);
            assert(next.drop_last() =~= line_texts(lines@).take(i as int));
            assert(next.last() == text_view(lines@[i as int]));
        }
        match &lines[i] {
            Some(line) => match extract_domain(line.as_str()) {
                Some(domain) => {
                    list.push(domain);
                    assert(texts(list@) =~= before.push(domain@));
                },
                None => {},
            },
            None => {},
        }
        i += 1;
    }
    assert(line_texts(lines@).take(lines@.len() as int) =~= line_texts(lines@));
    list
}

/// `list` with every run of equal neighbours reduced to its first entry.
/// Entries that are equal but not neighbours all stay.
pub open spec fn dedup(list: Seq<Seq<char>>) -> Seq<Seq<char>>
    decreases list.len(),
{
    if list.len() == 0 {
        list
    } else if list.len() >= 2 && list[list.len() - 2] == list.last() {
        dedup(list.drop_last())
    } else {
        dedup(list.drop_last()).push(list.last())
    }
}

/// No entry of `list` equals the one before it.
pub open spec fn no_adjacent_repeats(list: Seq<Seq<char>>) -> bool {
    forall|i: int| 0 < i < list.len() ==> list[i - 1] != #[trigger] list[i]
}

/// Reducing runs keeps the last entry and makes the list no longer.
pub proof fn lemma_dedup_last(list: Seq<Seq<char>>)
    ensures
        dedup(list).len() <= list.len(),
        list.len() > 0 ==> dedup(list).len() > 0 && dedup(list).last() == list.last(),
    decreases list.len(),
{
    if list.len() > 0 {
        lemma_dedup_last(list.drop_last());
    }
}

/// After runs were reduced no two neighbours are equal.
pub proof fn lemma_dedup_no_adjacent_repeats(list: Seq<Seq<char>>)
    ensures
        no_adjacent_repeats(dedup(list)),
    decreases list.len(),
{
    if list.len() > 0 {
        lemma_dedup_no_adjacent_repeats(list.drop_last());
        lemma_dedup_last(list.drop_last());
    }
}

/// A list without equal neighbours is left as it is.
pub proof fn lemma_dedup_fixed(list: Seq<Seq<char>>)
    requires
        no_adjacent_repeats(list),
    ensures
        dedup(list) == list,
    decreases list.len(),
{
    if list.len() > 0 {
        let front = list.drop_last();
        assert forall|i: int| 0 < i < front.len() implies front[i - 1] != #[trigger] front[i] by {
            assert(list[i - 1] != list[i]);
        }
        lemma_dedup_fixed(front);
        if list.len() >= 2 {
            assert(list[list.len() - 2] != list[list.len() - 1]);
        }
        assert(front.push(list.last()) =~= list);
    }
}

/// Reducing runs a second time changes nothing.
pub proof fn lemma_dedup_idempotent(list: Seq<Seq<char>>)
    ensures
        dedup(dedup(list)) == dedup(list),
{
    lemma_dedup_no_adjacent_repeats(list);
    lemma_dedup_fixed(dedup(list));
}

/// Reducing runs loses no domain and adds none.
pub proof fn lemma_dedup_members(list: Seq<Seq<char>>, domain: Seq<char>)
    ensures
        dedup(list).contains(domain) <==> list.contains(domain),
    decreases list.len(),
{
    if list.len() > 0 {
        let front = list.drop_last();
        let d = dedup(front);
        let full = dedup(list);
        let repeated = list.len() >= 2 && list[list.len() - 2] == list.last();
        lemma_dedup_members(front, domain);
        if list.contains(domain) {
            let k = choose|k: int| 0 <= k < list.len() && list[k] == domain;
            if k < front.len() || repeated {
                if k < front.len() {
                    assert(front[k] == domain);
                } else {
                    assert(front[list.len() - 2] == domain);
                }
                assert(front.contains(domain));
                let m = choose|m: int| 0 <= m < d.len() && d[m] == domain;
                assert(full[m] == domain);
            } else {
                assert(full[d.len() as int] == domain);
            }
            assert(full.contains(domain));
        }
        if full.contains(domain) {
            let k = choose|k: int| 0 <= k < full.len() && full[k] == domain;
            if k < d.len() {
                assert(d[k] == domain);
                assert(d.contains(domain));
                let m = choose|m: int| 0 <= m < front.len() && front[m] == domain;
                assert(list[m] == domain);
            } else {
                assert(list[list.len() - 1] == domain);
            }
            assert(list.contains(domain));
        }
    }
}

/// Reduces every run of equal neighbours to its first entry.
pub fn dedup_adjacent(list: &Vec<String>) -> (kept: Vec<String>)
    ensures
        texts(kept@) == dedup(texts(list@)),
        no_adjacent_repeats(texts(kept@)),
{
    let mut kept: Vec<String> = Vec::new();
    let mut i: usize = 0;
    assert(texts(list@).take(0) =~= Seq::empty());
    assert(texts(kept@) =~= Seq::empty());
    while i < list.len()
        invariant
            i <= list@.len(),
            texts(kept@) == dedup(texts(list@).take(i as int)),
        decreases list@.len() - i,
    {
        let ghost before = texts(kept@);
        proof {
            let next = texts(list@).take(i + 1);
            assert(next.drop_last() =~= texts(list@).take(i as int));
            assert(next.last() == list@[i as int]@);
            if i > 0 {
                assert(next[next.len() - 2] == list@[i - 1]@);
            }
        }
        if i == 0 || list[i - 1] != list[i] {
            let domain = list[i].clone();
            kept.push(domain);
            assert(texts(kept@) =~= before.push(list@[i as int]@));
        }
        i += 1;
    }
    proof {
        assert(texts(list@).take(list@.len() as int) =~= texts(list@));
        lemma_dedup_no_adjacent_repeats(texts(list@));
    }
    kept
}

/// The list of work before it is put in a random order: the domains that the
/// lines name, runs of equal neighbours reduced.
pub open spec fn pending(lines: Seq<Option<Seq<char>>>) -> Seq<Seq<char>> {
    dedup(domains_of(lines))
}

/// Builds the list of work in the order of the input.
pub fn build_list(lines: &Vec<Option<String>>) -> (list: Vec<String>)
    ensures
        texts(list@) == pending(line_texts(lines@)),
        no_adjacent_repeats(texts(list@)),
{
    let all = collect_domains(lines);
    dedup_adjacent(&all)
}

/// `SliceRandom::shuffle` of `rand`, with the generator of `thread_rng`. The
/// shuffle only swaps entries of the slice, so of every outcome it is
/// claimed that the list holds the domains it held, each as often as
/// before; nothing is claimed of their order. The generator is seeded from
/// the operating system when a thread first asks for it, and the call does
/// not return where the system refuses the seed.
#[verifier::external_body]
fn shuffle(list: &mut Vec<String>)
    ensures
        texts(final(list)@).to_multiset() == texts(old(list)@).to_multiset(),
{
    let mut rng = rand::thread_rng();
    list.shuffle(&mut rng);
}

/// Loads a list into a queue, the first entry at the front.
pub fn load_queue(list: &Vec<String>) -> (queue: VecDeque<String>)
    ensures
        texts(queue@) == texts(list@),
{
    let mut queue: VecDeque<String> = VecDeque::new();
    let mut i: usize = 0;
    while i < list.len()
        invariant
            i <= list@.len(),
            texts(queue@) == texts(list@).take(i as int),
        decreases list@.len() - i,
    {
        let ghost before = texts(queue@);
        let domain = list[i].clone();
        queue.push_back(domain);
        assert(texts(queue@) =~= before.push(list@[i as int]@));
        assert(before.push(list@[i as int]@) =~= texts(list@).take(i + 1));
        i += 1;
    }
    assert(texts(list@).take(list@.len() as int) =~= texts(list@));
    queue
}

/// Builds the work queue from the lines of the input: the domains that the
/// lines name, runs of equal neighbours reduced, in a random order. The
/// queue holds exactly the domains of [`pending`], each as often as there.
pub fn to_queue(lines: Vec<Option<String>>) -> (queue: VecDeque<String>)
    ensures
        texts(queue@).to_multiset() == pending(line_texts(lines@)).to_multiset(),
        queue@.len() == pending(line_texts(lines@)).len(),
        pending(line_texts(lines@)).no_duplicates() ==> no_adjacent_repeats(texts(queue@)),
{
    let mut list = build_list(&lines);
    let ghost ordered = texts(list@);
    shuffle(&mut list);
    let queue = load_queue(&list);
    proof {
        ordered.to_multiset_ensures();
        texts(queue@).to_multiset_ensures();
        if ordered.no_duplicates() {
            lemma_reordered_distinct(ordered, texts(queue@));
        }
    }
    queue
}

/// In a list that holds no domain twice, however its entries are reordered,
/// no entry equals the one before it.
pub proof fn lemma_reordered_distinct(list: Seq<Seq<char>>, reordered: Seq<Seq<char>>)
    requires
        list.no_duplicates(),
        reordered.to_multiset() == list.to_multiset(),
    ensures
        reordered.no_duplicates(),
        no_adjacent_repeats(reordered),
{
    list.lemma_multiset_has_no_duplicates();
    reordered.lemma_multiset_has_no_duplicates_conv();
}

/// Claims the domain at the front of the queue: it leaves the queue and is
/// handed out once. An empty queue gives nothing and stays empty.
pub fn claim(queue: &mut VecDeque<String>) -> (claimed: Option<String>)
    ensures
        old(queue)@.len() == 0 ==> claimed is None && final(queue)@ == old(queue)@,
        old(queue)@.len() > 0 ==> claimed == Some(old(queue)@[0]) && final(queue)@ == old(
            queue,
        )@.skip(1),
{
    let claimed = queue.pop_front();
    proof {
        if old(queue)@.len() > 0 {
            assert(old(queue)@.subrange(1, old(queue)@.len() as int) =~= old(queue)@.skip(1));
        }
    }
    claimed
}

} // verus!
