use vstd::prelude::*;

verus! {

/// `q` stands in `line` from column `j` on.
pub open spec fn occurs_at(line: Seq<char>, q: Seq<char>, j: int) -> bool {
    0 <= j && j + q.len() <= line.len() && line.subrange(j, j + q.len()) == q
}

/// Leftmost column from `from` on where `q` stands in `line`.
pub open spec fn first_in_row(line: Seq<char>, q: Seq<char>, from: nat) -> Option<nat>
    decreases line.len() + 1 - from,
{
    if from > line.len() {
        None
    } else if occurs_at(line, q, from as int) {
        Some(from)
    } else {
        first_in_row(line, q, from + 1)
    }
}

/// Rightmost column not past `k` where `q` stands in `line`.
pub open spec fn last_in_row(line: Seq<char>, q: Seq<char>, k: int) -> Option<nat>
    decreases k + 1,
{
    if k < 0 {
        None
    } else if occurs_at(line, q, k) {
        Some(k as nat)
    } else {
        last_in_row(line, q, k - 1)
    }
}

/// First occurrence of `q` scanning forward from row `row`, column `col`:
/// the starting row from that column on, later rows from their start.
/// The result is `(column, row)`.
pub open spec fn find_from(lines: Seq<Seq<char>>, q: Seq<char>, row: nat, col: nat) -> Option<(nat, nat)>
    decreases lines.len() - row,
{
    if row >= lines.len() {
        None
    } else {
        match first_in_row(lines[row as int], q, col) {
            Some(j) => Some((j, row)),
            None => find_from(lines, q, row + 1, 0),
        }
    }
}

/// Last occurrence of `q` in the whole rows `row`, `row - 1`, ..., 0.
pub open spec fn rfind_rows(lines: Seq<Seq<char>>, q: Seq<char>, row: int) -> Option<(nat, nat)>
    decreases row + 1,
{
    if row < 0 || row >= lines.len() {
        None
    } else {
        match last_in_row(lines[row], q, lines[row].len() - q.len()) {
            Some(j) => Some((j, row as nat)),
            None => rfind_rows(lines, q, row - 1),
        }
    }
}

/// Last occurrence of `q` scanning backward from row `row`, column `col`:
/// in the starting row it must end by that column, earlier rows are
/// searched whole. The result is `(column, row)`.
pub open spec fn rfind_from(lines: Seq<Seq<char>>, q: Seq<char>, row: nat, col: nat) -> Option<(nat, nat)> {
    if row >= lines.len() {
        rfind_rows(lines, q, lines.len() - 1)
    } else {
        let line = lines[row as int];
        let end = if col <= line.len() { col as int } else { line.len() as int };
        match last_in_row(line, q, end - q.len()) {
            Some(j) => Some((j, row)),
            None => rfind_rows(lines, q, row - 1),
        }
    }
}

pub open spec fn as_nat(r: Option<usize>) -> Option<nat> {
    match r {
        Some(j) => Some(j as nat),
        None => None,
    }
}

/// `q` stands in `line` from column `j` on.
pub fn occurs(line: &Vec<char>, q: &Vec<char>, j: usize) -> (b: bool)
    ensures
        b == occurs_at(line@, q@, j as int),
{
    if j > line.len() || q.len() > line.len() - j {
        return false;
    }
    let mut k: usize = 0;
    while k < q.len()
        invariant
            k <= q.len(),
            j + q.len() <= line.len(),
            forall|m: int| 0 <= m < k ==> line@[j + m] == q@[m],
        decreases q.len() - k,
    {
        if line[j + k] != q[k] {
            assert(line@.subrange(j as int, j + q.len())[k as int] != q@[k as int]);
            return false;
        }
        k += 1;
    }
    assert(line@.subrange(j as int, j + q.len()) == q@);
    true
}

/// Leftmost column from `from` on where `q` stands in `line`.
pub fn first_match(line: &Vec<char>, q: &Vec<char>, from: usize) -> (r: Option<usize>)
    ensures
        as_nat(r) == first_in_row(line@, q@, from as nat),
{
    if from > line.len() {
        return None;
    }
    let mut j: usize = from;
    while j < line.len()
        invariant
            from <= j <= line.len(),
            first_in_row(line@, q@, from as nat) == first_in_row(line@, q@, j as nat),
        decreases line.len() - j,
    {
        if occurs(line, q, j) {
            return Some(j);
        }
        j += 1;
    }
    if occurs(line, q, j) {
        Some(j)
    } else {
        assert(first_in_row(line@, q@, (j + 1) as nat) == None::<nat>);
        None
    }
}

/// Rightmost column where `q` stands in `line` and ends by column `end`.
pub fn last_match(line: &Vec<char>, q: &Vec<char>, end: usize) -> (r: Option<usize>)
    requires
        end <= line.len(),
    ensures
        as_nat(r) == last_in_row(line@, q@, end - q.len()),
{
    if q.len() > end {
        return None;
    }
    let mut k: usize = end - q.len();
    loop
        invariant
            k + q.len() <= end <= line.len(),
            last_in_row(line@, q@, end - q.len()) == last_in_row(line@, q@, k as int),
        decreases k,
    {
        if occurs(line, q, k) {
            return Some(k);
        }
        if k == 0 {
            assert(last_in_row(line@, q@, -1) == None::<nat>);
            return None;
        }
        k -= 1;
    }
}

/// After `find` stops at a match, a backward search starting just after that
/// match stops at the same match.
pub proof fn law_find_then_rfind(lines: Seq<Seq<char>>, q: Seq<char>, row: nat, col: nat)
    requires
        find_from(lines, q, row, col) is Some,
    ensures
        ({
            let (j, i) = find_from(lines, q, row, col)->0;
            rfind_from(lines, q, i, j + q.len()) == Some((j, i))
        }),
    decreases lines.len() - row,
{
    lemma_first_in_row_occurs(lines[row as int], q, col);
    if first_in_row(lines[row as int], q, col) is None {
        law_find_then_rfind(lines, q, row + 1, 0);
    }
}

/// After `rfind` stops at a match, a forward search starting at that match
/// stops at the same match.
pub proof fn law_rfind_then_find(lines: Seq<Seq<char>>, q: Seq<char>, row: nat, col: nat)
    requires
        rfind_from(lines, q, row, col) is Some,
    ensures
        ({
            let (j, i) = rfind_from(lines, q, row, col)->0;
            find_from(lines, q, i, j) == Some((j, i))
        }),
{
    let (j, i) = rfind_from(lines, q, row, col)->0;
    if row < lines.len() {
        let line = lines[row as int];
        let end = if col <= line.len() { col as int } else { line.len() as int };
        lemma_last_in_row_occurs(line, q, end - q.len());
        if last_in_row(line, q, end - q.len()) is None {
            lemma_rfind_rows_occurs(lines, q, row - 1);
        }
    } else {
        lemma_rfind_rows_occurs(lines, q, lines.len() - 1);
    }
    assert(occurs_at(lines[i as int], q, j as int));
    assert(first_in_row(lines[i as int], q, j) == Some(j));
}

/// A forward search stops at an occurrence of the query.
pub proof fn lemma_find_from_occurs(lines: Seq<Seq<char>>, q: Seq<char>, row: nat, col: nat)
    ensures
        find_from(lines, q, row, col) matches Some((j, i)) ==> row <= i < lines.len() && occurs_at(
            lines[i as int],
            q,
            j as int,
        ),
    decreases lines.len() - row,
{
    if row < lines.len() {
        lemma_first_in_row_occurs(lines[row as int], q, col);
        if first_in_row(lines[row as int], q, col) is None {
            lemma_find_from_occurs(lines, q, row + 1, 0);
        }
    }
}

/// A backward search stops at an occurrence of the query.
pub proof fn lemma_rfind_from_occurs(lines: Seq<Seq<char>>, q: Seq<char>, row: nat, col: nat)
    ensures
        rfind_from(lines, q, row, col) matches Some((j, i)) ==> i < lines.len() && occurs_at(
            lines[i as int],
            q,
            j as int,
        ),
{
    if row < lines.len() {
        let line = lines[row as int];
        let end = if col <= line.len() { col as int } else { line.len() as int };
        lemma_last_in_row_occurs(line, q, end - q.len());
        lemma_rfind_rows_occurs(lines, q, row - 1);
    } else {
        lemma_rfind_rows_occurs(lines, q, lines.len() - 1);
    }
}

pub proof fn lemma_first_in_row_occurs(line: Seq<char>, q: Seq<char>, from: nat)
    ensures
        first_in_row(line, q, from) matches Some(j) ==> from <= j && occurs_at(line, q, j as int),
    decreases line.len() + 1 - from,
{
    if from <= line.len() && !occurs_at(line, q, from as int) {
        lemma_first_in_row_occurs(line, q, from + 1);
    }
}

pub proof fn lemma_last_in_row_occurs(line: Seq<char>, q: Seq<char>, k: int)
    ensures
        last_in_row(line, q, k) matches Some(j) ==> j <= k && occurs_at(line, q, j as int),
    decreases k + 1,
{
    if k >= 0 && !occurs_at(line, q, k) {
        lemma_last_in_row_occurs(line, q, k - 1);
    }
}

pub proof fn lemma_rfind_rows_occurs(lines: Seq<Seq<char>>, q: Seq<char>, row: int)
    ensures
        rfind_rows(lines, q, row) matches Some((j, i)) ==> i <= row && i < lines.len() && occurs_at(
            lines[i as int],
            q,
            j as int,
        ),
    decreases row + 1,
{
    if 0 <= row < lines.len() {
        lemma_last_in_row_occurs(lines[row], q, lines[row].len() - q.len());
        if last_in_row(lines[row], q, lines[row].len() - q.len()) is None {
            lemma_rfind_rows_occurs(lines, q, row - 1);
        }
    }
}

} // verus!
