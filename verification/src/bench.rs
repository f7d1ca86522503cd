//! What the headless runs decide and count: how long to measure, and what was heard.
use vstd::prelude::*;
use crate::text;

verus! {

/// How many events to measure at `target` events per second: two seconds' worth, but enough for
/// a stable tail and not so many as to take forever.
pub fn sample_count(target: u64) -> (r: u64)
    requires
        target * 2 <= u64::MAX,
    ensures
        target < 100 ==> r == 200,
        100 <= target <= 2000 ==> r == target * 2,
        target > 2000 ==> r == 4000,
{
    let n: u64 = target * 2;
    if n < 200 {
        200
    } else if n > 4000 {
        4000
    } else {
        n
    }
}

/// Whether a run is over: the engine has stopped, and not before it did what was wanted.
pub fn finished(running: bool, events: u64, wanted: u64) -> (r: bool)
    ensures
        r == (!running && events >= wanted),
{
    !running && events >= wanted
}

/// Whether one text comes before another: at the first place where they differ it has the smaller
/// character, or it ends there.
pub open spec fn precedes(a: Seq<char>, b: Seq<char>) -> bool
    decreases a.len(),
{
    if b.len() == 0 {
        false
    } else if a.len() == 0 {
        true
    } else if a[0] != b[0] {
        (a[0] as int) < (b[0] as int)
    } else {
        precedes(a.drop_first(), b.drop_first())
    }
}

proof fn lemma_precedes_is_total(a: Seq<char>, b: Seq<char>)
    ensures
        a == b || precedes(a, b) || precedes(b, a),
        !(precedes(a, b) && precedes(b, a)),
        a == b ==> !precedes(a, b),
    decreases a.len(),
{
    if a.len() > 0 && b.len() > 0 && a[0] == b[0] {
        lemma_precedes_is_total(a.drop_first(), b.drop_first());
        if a.drop_first() == b.drop_first() {
            assert(b == seq![b[0]] + b.drop_first());
        }
    }
}

proof fn lemma_precedes_is_transitive(a: Seq<char>, b: Seq<char>, c: Seq<char>)
    requires
        precedes(a, b),
        precedes(b, c),
    ensures
        precedes(a, c),
    decreases a.len(),
{
    if a.len() > 0 && a[0] == b[0] && b[0] == c[0] {
        lemma_precedes_is_transitive(a.drop_first(), b.drop_first(), c.drop_first());
    }
}

fn comes_before(a: &str, b: &str) -> (r: bool)
    ensures
        r == precedes(a@, b@),
{
    let x = text::chars_of(a);
    let y = text::chars_of(b);
    let mut i: usize = 0;
    assert(a@.skip(0) == a@ && b@.skip(0) == b@);
    while i < x.len() && i < y.len() && x[i] == y[i]
        invariant
            x@ == a@,
            y@ == b@,
            i <= x.len(),
            i <= y.len(),
            precedes(a@, b@) == precedes(a@.skip(i as int), b@.skip(i as int)),
        decreases x.len() - i,
    {
        assert(a@.skip(i as int).drop_first() == a@.skip(i + 1));
        assert(b@.skip(i as int).drop_first() == b@.skip(i + 1));
        i += 1;
    }
    if i == y.len() {
        false
    } else if i == x.len() {
        true
    } else {
        proof {
            text::lemma_char_range(x@[i as int]);
            text::lemma_char_range(y@[i as int]);
        }
        (x[i] as u32) < (y[i] as u32)
    }
}

/// How often one signal was heard, and the device that sent it first.
#[derive(Debug)]
pub struct Row {
    pub signal: String,
    pub events: u64,
    pub device: i64,
}

/// What the rows of a table say: signal by signal, how often and from where.
pub open spec fn said(rows: Seq<Row>) -> Map<Seq<char>, (u64, i64)> {
    Map::new(
        |s: Seq<char>| stands_in(rows, s),
        |s: Seq<char>| (rows[place(rows, s)].events, rows[place(rows, s)].device),
    )
}

/// Whether a signal has a row.
pub open spec fn stands_in(rows: Seq<Row>, s: Seq<char>) -> bool {
    exists|i: int| 0 <= i < rows.len() && (#[trigger] rows[i]).signal@ == s
}

/// The row of a signal that has one.
pub open spec fn place(rows: Seq<Row>, s: Seq<char>) -> int {
    choose|i: int| 0 <= i < rows.len() && (#[trigger] rows[i]).signal@ == s
}

/// No signal has two rows.
pub open spec fn distinct(rows: Seq<Row>) -> bool {
    forall|i: int, j: int|
        0 <= i < j < rows.len() ==> (#[trigger] rows[i]).signal@ != (#[trigger] rows[j]).signal@
}

/// Whether a row stands higher than another: the signal heard more often, and of two heard as
/// often the one whose name comes first.
pub open spec fn ranks_higher(a: Row, b: Row) -> bool {
    a.events > b.events || (a.events == b.events && precedes(a.signal@, b.signal@))
}

/// Rows from the highest to the lowest.
pub open spec fn ranked(rows: Seq<Row>) -> bool {
    forall|i: int, j: int|
        0 <= i < j < rows.len() ==> ranks_higher(#[trigger] rows[i], #[trigger] rows[j])
}

proof fn lemma_place(rows: Seq<Row>, i: int)
    requires
        distinct(rows),
        0 <= i < rows.len(),
    ensures
        stands_in(rows, rows[i].signal@),
        place(rows, rows[i].signal@) == i,
{
}

proof fn lemma_row_added(rows: Seq<Row>, row: Row)
    requires
        distinct(rows),
        !stands_in(rows, row.signal@),
    ensures
        distinct(rows.push(row)),
        said(rows.push(row)) == said(rows).insert(row.signal@, (row.events, row.device)),
{
    lemma_row_entered(rows, row, rows.len() as int);
    assert(rows.insert(rows.len() as int, row) == rows.push(row));
}

proof fn lemma_row_changed(rows: Seq<Row>, i: int, row: Row)
    requires
        distinct(rows),
        0 <= i < rows.len(),
        rows[i].signal@ == row.signal@,
    ensures
        distinct(rows.update(i, row)),
        said(rows.update(i, row)) == said(rows).insert(row.signal@, (row.events, row.device)),
{
    let after = rows.update(i, row);
    assert forall|s: Seq<char>| stands_in(after, s) == stands_in(rows, s) by {
        if stands_in(rows, s) {
            assert(after[place(rows, s)].signal@ == s);
        }
    }
    assert(forall|s: Seq<char>| #[trigger]
        stands_in(after, s) ==> place(after, s) == place(rows, s));
}

proof fn lemma_row_entered(rows: Seq<Row>, row: Row, at: int)
    requires
        distinct(rows),
        !stands_in(rows, row.signal@),
        0 <= at <= rows.len(),
    ensures
        distinct(rows.insert(at, row)),
        said(rows.insert(at, row)) == said(rows).insert(row.signal@, (row.events, row.device)),
{
    let after = rows.insert(at, row);
    lemma_place(after, at);
    assert forall|s: Seq<char>| s != row.signal@ implies stands_in(after, s) == stands_in(rows, s)
        && (stands_in(rows, s) ==> after[place(after, s)] == rows[place(rows, s)]) by {
        if stands_in(rows, s) {
            let k = place(rows, s);
            if k < at {
                lemma_place(after, k);
            } else {
                lemma_place(after, k + 1);
            }
        }
        if stands_in(after, s) {
            let k = place(after, s);
            assert(rows[if k < at {
                k
            } else {
                k - 1
            }].signal@ == s);
        }
    }
}

fn stands_higher(a: &Row, b: &Row) -> (r: bool)
    ensures
        r == ranks_higher(*a, *b),
{
    a.events > b.events || (a.events == b.events && comes_before(
        a.signal.as_str(),
        b.signal.as_str(),
    ))
}

fn enter(rows: &mut Vec<Row>, row: Row)
    requires
        ranked(old(rows)@),
        distinct(old(rows)@),
        !stands_in(old(rows)@, row.signal@),
    ensures
        ranked(final(rows)@),
        distinct(final(rows)@),
        said(final(rows)@) == said(old(rows)@).insert(row.signal@, (row.events, row.device)),
{
    let ghost before = rows@;
    let mut at: usize = 0;
    while at < rows.len() && stands_higher(&rows[at], &row)
        invariant
            at <= rows.len(),
            rows@ == before,
            ranked(before),
            forall|k: int| 0 <= k < at ==> ranks_higher(#[trigger] before[k], row),
        decreases rows.len() - at,
    {
        at += 1;
    }
    proof {
        lemma_row_entered(before, row, at as int);
        assert forall|k: int| at <= k < before.len() implies ranks_higher(
            row,
            #[trigger] before[k],
        ) by {
            lemma_precedes_is_total(row.signal@, before[at as int].signal@);
            if k > at {
                if row.events == before[at as int].events && before[at as int].events
                    == before[k].events {
                    lemma_precedes_is_transitive(
                        row.signal@,
                        before[at as int].signal@,
                        before[k].signal@,
                    );
                }
            }
        }
    }
    rows.insert(at, row);
}

/// A count of the signals heard.
pub struct Tally {
    pub rows: Vec<Row>,
    /// All that was heard.
    pub seen: u64,
}

impl Tally {
    /// The invariant: a signal has one row at most, and none was heard more often than all.
    pub open spec fn wf(self) -> bool {
        &&& distinct(self.rows@)
        &&& forall|i: int| 0 <= i < self.rows@.len() ==> (#[trigger] self.rows@[i]).events
            <= self.seen
    }

    /// Nothing heard yet.
    pub fn new() -> (r: Self)
        ensures
            r.wf(),
            r.seen == 0,
            said(r.rows@) == Map::<Seq<char>, (u64, i64)>::empty(),
    {
        let r = Tally { rows: Vec::new(), seen: 0 };
        r
    }

    fn find(&self, signal: &String) -> (r: Option<usize>)
        ensures
            r is Some <==> stands_in(self.rows@, signal@),
            r matches Some(i) ==> i < self.rows@.len() && self.rows@[i as int].signal@ == signal@,
    {
        let mut i: usize = 0;
        while i < self.rows.len()
            invariant
                i <= self.rows.len(),
                forall|j: int| 0 <= j < i ==> (#[trigger] self.rows@[j]).signal@ != signal@,
            decreases self.rows.len() - i,
        {
            if self.rows[i].signal == *signal {
                return Some(i);
            }
            i += 1;
        }
        None
    }

    /// Counts a signal from a device. The device is that of the first time it was heard.
    pub fn note(&mut self, signal: String, device: i64)
        requires
            old(self).wf(),
            old(self).seen < u64::MAX,
        ensures
            final(self).wf(),
            final(self).seen == old(self).seen + 1,
            said(final(self).rows@) == said(old(self).rows@).insert(
                signal@,
                if stands_in(old(self).rows@, signal@) {
                    (
                        (said(old(self).rows@)[signal@].0 + 1) as u64,
                        said(old(self).rows@)[signal@].1,
                    )
                } else {
                    (1, device)
                },
            ),
    {
        let ghost before = self.rows@;
        self.seen += 1;
        match self.find(&signal) {
            Some(i) => {
                let row = Row {
                    signal,
                    events: self.rows[i].events + 1,
                    device: self.rows[i].device,
                };
                self.rows.set(i, row);
                proof {
                    lemma_row_changed(before, i as int, row);
                }
            },
            None => {
                let row = Row { signal, events: 1, device };
                self.rows.push(row);
                proof {
                    lemma_row_added(before, row);
                }
            },
        }
    }

    /// The rows from the signal heard most often to the one heard least.
    pub fn ranking(&self) -> (r: Vec<Row>)
        requires
            self.wf(),
        ensures
            ranked(r@),
            distinct(r@),
            said(r@) == said(self.rows@),
    {
        let mut out: Vec<Row> = Vec::new();
        let mut i: usize = 0;
        while i < self.rows.len()
            invariant
                self.wf(),
                i <= self.rows.len(),
                ranked(out@),
                distinct(out@),
                said(out@) == said(self.rows@.take(i as int)),
            decreases self.rows.len() - i,
        {
            let row = Row {
                signal: self.rows[i].signal.clone(),
                events: self.rows[i].events,
                device: self.rows[i].device,
            };
            let ghost taken = self.rows@.take(i as int);
            assert(self.rows@.take(i + 1) == taken.push(self.rows@[i as int]));
            proof {
                lemma_row_added(taken, self.rows@[i as int]);
                assert(!stands_in(taken, row.signal@));
                assert(!said(out@).dom().contains(row.signal@));
            }
            enter(&mut out, row);
            i += 1;
        }
        assert(self.rows@.take(self.rows@.len() as int) == self.rows@);
        out
    }
}

/// Names are in the order of a dictionary: a name comes before each that it begins, and of two that
/// differ the one with the smaller character at the first such place comes first. Of two names one
/// comes first unless they are the same, and the order carries over.
pub proof fn law_names_are_in_order(a: Seq<char>, b: Seq<char>, c: Seq<char>, at: int)
    ensures
        a == b ==> !precedes(a, b),
        a != b ==> precedes(a, b) || precedes(b, a),
        !(precedes(a, b) && precedes(b, a)),
        precedes(a, b) && precedes(b, c) ==> precedes(a, c),
        a.len() < b.len() && b.take(a.len() as int) == a ==> precedes(a, b),
        0 <= at < a.len() && at < b.len() && a.take(at) == b.take(at) && (a[at] as int) < (
        b[at] as int) ==> precedes(a, b),
{
    lemma_precedes_is_total(a, b);
    if precedes(a, b) && precedes(b, c) {
        lemma_precedes_is_transitive(a, b, c);
    }
    if a.len() < b.len() && b.take(a.len() as int) == a {
        lemma_beginning_precedes(a, b);
    }
    if 0 <= at < a.len() && at < b.len() && a.take(at) == b.take(at) && (a[at] as int) < (
    b[at] as int) {
        lemma_difference_decides(a, b, at);
    }
}

proof fn lemma_beginning_precedes(a: Seq<char>, b: Seq<char>)
    requires
        a.len() < b.len(),
        b.take(a.len() as int) == a,
    ensures
        precedes(a, b),
    decreases a.len(),
{
    if a.len() > 0 {
        assert(b.take(a.len() as int)[0] == b[0]);
        assert(b.drop_first().take(a.len() - 1) == b.take(a.len() as int).drop_first());
        lemma_beginning_precedes(a.drop_first(), b.drop_first());
    }
}

proof fn lemma_difference_decides(a: Seq<char>, b: Seq<char>, at: int)
    requires
        0 <= at < a.len(),
        at < b.len(),
        a.take(at) == b.take(at),
        (a[at] as int) < (b[at] as int),
    ensures
        precedes(a, b),
    decreases at,
{
    if at > 0 {
        assert(a.take(at)[0] == a[0] && b.take(at)[0] == b[0]);
        assert(a.drop_first().take(at - 1) == a.take(at).drop_first());
        assert(b.drop_first().take(at - 1) == b.take(at).drop_first());
        lemma_difference_decides(a.drop_first(), b.drop_first(), at - 1);
    }
}

/// A table says of each of its signals what stands in its row, and of nothing else; and one in the
/// order of its ranks goes from the signal heard most often to the one heard least, names in order
/// where two were heard as often.
pub proof fn law_a_table_says_what_stands_in_it(rows: Seq<Row>, i: int, j: int, s: Seq<char>)
    requires
        distinct(rows),
        0 <= i < rows.len(),
    ensures
        said(rows).dom().contains(rows[i].signal@),
        said(rows)[rows[i].signal@] == (rows[i].events, rows[i].device),
        said(rows).dom().contains(s) <==> exists|k: int|
            0 <= k < rows.len() && (#[trigger] rows[k]).signal@ == s,
        i < j < rows.len() ==> {
            &&& rows[i].signal@ != rows[j].signal@
            &&& ranked(rows) ==> rows[i].events >= rows[j].events
            &&& ranked(rows) && rows[i].events == rows[j].events ==> precedes(
                rows[i].signal@,
                rows[j].signal@,
            )
        },
{
    lemma_place(rows, i);
}

} // verus!
