//! The CSV writer task's decision logic.
//!
//! One writer serves one telemetry store.  It receives `Row`, `Flush` and
//! `Stop` commands and decides which CSV records to append to the store's
//! file.  Until the first flush the column set is unknown, so rows are
//! buffered; the first flush derives the header as the union of the keys of
//! all buffered rows in first-discovered order, emits the header and the
//! buffered rows, and freezes the header.  After the freeze, rows are emitted
//! immediately and keys outside the frozen header are omitted from the file.
//!
//! The caller (a background task) performs the actual file writes; this type
//! only turns commands into records, so its behaviour is verified against the
//! spec-level transition functions `next_state` and `output_of`.

use vstd::prelude::*;
use crate::keyed::find_entry;

verus! {

/// A row as a sequence of `(key, cell)` pairs, in first-seen key order.
#[verifier::ext_equal]
pub ghost struct WriterModel {
    /// The frozen header, once `header_written` holds.
    pub headers: Seq<Seq<char>>,
    /// Rows received before the header freeze.
    pub buffered: Seq<Seq<(Seq<char>, Seq<char>)>>,
    /// Whether the header has been derived and emitted.
    pub header_written: bool,
    /// Whether a `Stop` command has been processed.
    pub stopped: bool,
}

/// A command as the writer model sees it.
pub ghost enum CommandModel {
    /// A row snapshot to persist.
    Row(Seq<(Seq<char>, Seq<char>)>),
    /// Derive and emit the header if still pending, then sync the file.
    Flush,
    /// Flush pending rows and terminate the task.
    Stop,
}

/// A row's keys are pairwise distinct.
pub open spec fn row_wf(r: Seq<(Seq<char>, Seq<char>)>) -> bool {
    forall|i: int, j: int| 0 <= i < j < r.len() ==> (#[trigger] r[i]).0 != (#[trigger] r[j]).0
}

/// Whether the row holds a cell for key `k`.
pub open spec fn row_has(r: Seq<(Seq<char>, Seq<char>)>, k: Seq<char>) -> bool {
    exists|i: int| 0 <= i < r.len() && (#[trigger] r[i]).0 == k
}

/// The cell the row holds for key `k`.
pub open spec fn row_get(r: Seq<(Seq<char>, Seq<char>)>, k: Seq<char>) -> Seq<char> {
    r[choose|i: int| 0 <= i < r.len() && (#[trigger] r[i]).0 == k].1
}

/// The row's keys, in order.
pub open spec fn row_keys(r: Seq<(Seq<char>, Seq<char>)>) -> Seq<Seq<char>> {
    Seq::new(r.len(), |i: int| r[i].0)
}

/// `acc` extended with whichever of `ks` it does not yet hold, in order.
pub open spec fn add_keys(acc: Seq<Seq<char>>, ks: Seq<Seq<char>>) -> Seq<Seq<char>>
    decreases ks.len(),
{
    if ks.len() == 0 {
        acc
    } else {
        let prev = add_keys(acc, ks.drop_last());
        if prev.contains(ks.last()) {
            prev
        } else {
            prev.push(ks.last())
        }
    }
}

/// The header derived from a run of rows: the union of their keys, in
/// first-discovered order.
pub open spec fn headers_of(rows: Seq<Seq<(Seq<char>, Seq<char>)>>) -> Seq<Seq<char>>
    decreases rows.len(),
{
    if rows.len() == 0 {
        Seq::empty()
    } else {
        add_keys(headers_of(rows.drop_last()), row_keys(rows.last()))
    }
}

/// The record written for a row under a header: one cell per header key, the
/// empty string where the row has no cell for that key.
pub open spec fn project_row(headers: Seq<Seq<char>>, r: Seq<(Seq<char>, Seq<char>)>) -> Seq<
    Seq<char>,
> {
    Seq::new(
        headers.len(),
        |i: int|
            if row_has(r, headers[i]) {
                row_get(r, headers[i])
            } else {
                Seq::<char>::empty()
            },
    )
}

/// The state of a writer that has processed nothing.
pub open spec fn initial_writer() -> WriterModel {
    WriterModel {
        headers: Seq::empty(),
        buffered: Seq::empty(),
        header_written: false,
        stopped: false,
    }
}

/// What a flush does to the state: on the first flush with buffered rows the
/// header is derived and frozen and the buffer emptied; otherwise nothing.
pub open spec fn flush_state(m: WriterModel) -> WriterModel {
    if !m.header_written && m.buffered.len() > 0 {
        WriterModel {
            headers: headers_of(m.buffered),
            buffered: Seq::empty(),
            header_written: true,
            stopped: m.stopped,
        }
    } else {
        m
    }
}

/// The records a flush emits: on the first flush with buffered rows, the
/// header followed by every buffered row projected onto it; otherwise none.
pub open spec fn flush_output(m: WriterModel) -> Seq<Seq<Seq<char>>> {
    if !m.header_written && m.buffered.len() > 0 {
        seq![headers_of(m.buffered)] + Seq::new(
            m.buffered.len(),
            |i: int| project_row(headers_of(m.buffered), m.buffered[i]),
        )
    } else {
        Seq::empty()
    }
}

/// The writer state after one command.
pub open spec fn next_state(m: WriterModel, c: CommandModel) -> WriterModel {
    if m.stopped {
        m
    } else {
        match c {
            CommandModel::Row(r) => if !m.header_written {
                WriterModel { buffered: m.buffered.push(r), ..m }
            } else {
                m
            },
            CommandModel::Flush => flush_state(m),
            CommandModel::Stop => WriterModel { stopped: true, ..flush_state(m) },
        }
    }
}

/// The records one command emits.
pub open spec fn output_of(m: WriterModel, c: CommandModel) -> Seq<Seq<Seq<char>>> {
    if m.stopped {
        Seq::empty()
    } else {
        match c {
            CommandModel::Row(r) => if m.header_written {
                seq![project_row(m.headers, r)]
            } else {
                Seq::empty()
            },
            CommandModel::Flush => flush_output(m),
            CommandModel::Stop => flush_output(m),
        }
    }
}

/// Every buffered row has distinct keys.
pub open spec fn writer_wf(m: WriterModel) -> bool {
    forall|i: int| 0 <= i < m.buffered.len() ==> row_wf(#[trigger] m.buffered[i])
}

/// A command's rows have distinct keys.
pub open spec fn command_wf(c: CommandModel) -> bool {
    match c {
        CommandModel::Row(r) => row_wf(r),
        _ => true,
    }
}

/// A command for the writer task of one store.
pub enum CsvCommand {
    /// A row snapshot: the latest cell per field, keyed by field name.
    Row(Vec<(String, String)>),
    /// Derive and emit the header if still pending, then sync the file.
    Flush,
    /// Flush pending rows and terminate the task.
    Stop,
}

/// The view of one exec row.
pub open spec fn row_model(r: Vec<(String, String)>) -> Seq<(Seq<char>, Seq<char>)> {
    Seq::new(r@.len(), |i: int| (r@[i].0@, r@[i].1@))
}

impl View for CsvCommand {
    type V = CommandModel;

    open spec fn view(&self) -> CommandModel {
        match self {
            CsvCommand::Row(r) => CommandModel::Row(row_model(*r)),
            CsvCommand::Flush => CommandModel::Flush,
            CsvCommand::Stop => CommandModel::Stop,
        }
    }
}

/// The view of one CSV record.
pub open spec fn record_model(r: Vec<String>) -> Seq<Seq<char>> {
    Seq::new(r@.len(), |i: int| r@[i]@)
}

/// The view of a run of CSV records.
pub open spec fn records_model(rs: Seq<Vec<String>>) -> Seq<Seq<Seq<char>>> {
    Seq::new(rs.len(), |i: int| record_model(rs[i]))
}

/// The decision state of one store's CSV writer task.
pub struct CsvWriterState {
    /// The frozen header, filled at the first flush.
    pub headers: Vec<String>,
    /// Rows received before the header freeze.
    pub buffered: Vec<Vec<(String, String)>>,
    /// Whether the header has been derived and emitted.
    pub header_written: bool,
    /// Whether a `Stop` command has been processed.
    pub stopped: bool,
}

impl View for CsvWriterState {
    type V = WriterModel;

    open spec fn view(&self) -> WriterModel {
        WriterModel {
            headers: Seq::new(self.headers@.len(), |i: int| self.headers@[i]@),
            buffered: Seq::new(self.buffered@.len(), |i: int| row_model(self.buffered@[i])),
            header_written: self.header_written,
            stopped: self.stopped,
        }
    }
}

/// Whether `names` holds a string reading `s`.
pub(crate) fn contains_name(names: &Vec<String>, s: &str) -> (r: bool)
    ensures
        r == Seq::new(names@.len(), |i: int| names@[i]@).contains(s@),
{
    let ghost views = Seq::new(names@.len(), |i: int| names@[i]@);
    let mut i: usize = 0;
    while i < names.len()
        invariant
            i <= names@.len(),
            views == Seq::new(names@.len(), |k: int| names@[k]@),
            forall|j: int| 0 <= j < i ==> #[trigger] names@[j]@ != s@,
        decreases names@.len() - i,
    {
        if names[i].as_str().eq(s) {
            assert(views[i as int] == s@);
            return true;
        }
        i += 1;
    }
    assert(forall|j: int| 0 <= j < views.len() ==> views[j] != s@);
    false
}

/// Copies a record.
fn clone_record(r: &Vec<String>) -> (c: Vec<String>)
    ensures
        record_model(c) == record_model(*r),
{
    let mut out: Vec<String> = Vec::new();
    let mut i: usize = 0;
    while i < r.len()
        invariant
            i <= r@.len(),
            out@.len() == i,
            forall|j: int| 0 <= j < i ==> #[trigger] out@[j]@ == r@[j]@,
        decreases r@.len() - i,
    {
        out.push(r[i].clone());
        i += 1;
    }
    proof {
        assert(record_model(out) =~= record_model(*r));
    }
    out
}

/// The record for `row` under `headers`: one cell per header key, empty when
/// the row has no cell for that key.
pub(crate) fn project_record(headers: &Vec<String>, row: &Vec<(String, String)>) -> (rec: Vec<String>)
    requires
        row_wf(row_model(*row)),
    ensures
        record_model(rec) == project_row(
            Seq::new(headers@.len(), |i: int| headers@[i]@),
            row_model(*row),
        ),
{
    let ghost hm = Seq::new(headers@.len(), |i: int| headers@[i]@);
    let ghost rm = row_model(*row);
    let mut rec: Vec<String> = Vec::new();
    let mut i: usize = 0;
    while i < headers.len()
        invariant
            i <= headers@.len(),
            hm == Seq::new(headers@.len(), |k: int| headers@[k]@),
            rm == row_model(*row),
            row_wf(rm),
            rec@.len() == i,
            forall|j: int| 0 <= j < i ==> #[trigger] rec@[j]@ == project_row(hm, rm)[j],
        decreases headers@.len() - i,
    {
        match find_entry(row, headers[i].as_str()) {
            Some(j) => {
                proof {
                    // the first matching entry is the one `row_get` denotes
                    assert(rm[j as int].0 == hm[i as int]);
                    let ghost ki = hm[i as int];
                    let w = choose|w: int| 0 <= w < rm.len() && (#[trigger] rm[w]).0 == ki;
                    assert(rm[w].0 == rm[j as int].0);
                }
                rec.push(row[j].1.clone());
            },
            None => {
                proof {
                    assert(forall|w: int|
                        0 <= w < rm.len() ==> (#[trigger] rm[w]).0 == row@[w].0@);
                    assert(!row_has(rm, hm[i as int]));
                }
                rec.push(String::new());
            },
        }
        i += 1;
    }
    proof {
        assert(record_model(rec) =~= project_row(hm, rm));
    }
    rec
}

impl CsvWriterState {
    /// A writer that has processed nothing.
    pub fn new() -> (r: Self)
        ensures
            r@ == initial_writer(),
            writer_wf(r@),
    {
        let r = CsvWriterState {
            headers: Vec::new(),
            buffered: Vec::new(),
            header_written: false,
            stopped: false,
        };
        proof {
            assert(r@ =~= initial_writer());
        }
        r
    }

    /// Derives and freezes the header from the buffered rows, emitting the
    /// header record and every buffered row.
    fn flush(&mut self) -> (out: Vec<Vec<String>>)
        requires
            writer_wf(old(self)@),
        ensures
            final(self)@ == flush_state(old(self)@),
            records_model(out@) == flush_output(old(self)@),
            writer_wf(final(self)@),
    {
        let ghost m0 = self@;
        if !self.header_written && self.buffered.len() > 0 {
            // derive the header: union of keys in first-discovered order
            let mut hs: Vec<String> = Vec::new();
            let mut i: usize = 0;
            while i < self.buffered.len()
                invariant
                    i <= self.buffered@.len(),
                    self@ == m0,
                    writer_wf(m0),
                    Seq::new(hs@.len(), |k: int| hs@[k]@) == headers_of(
                        m0.buffered.take(i as int),
                    ),
                decreases self.buffered@.len() - i,
            {
                let ghost acc0 = Seq::new(hs@.len(), |k: int| hs@[k]@);
                let ghost rm = m0.buffered[i as int];
                let row_len = self.buffered[i].len();
                let mut j: usize = 0;
                while j < row_len
                    invariant
                        j <= rm.len(),
                        row_len == rm.len(),
                        i < self.buffered@.len(),
                        self@ == m0,
                        rm == m0.buffered[i as int],
                        acc0 == headers_of(m0.buffered.take(i as int)),
                        Seq::new(hs@.len(), |k: int| hs@[k]@) == add_keys(
                            acc0,
                            row_keys(rm).take(j as int),
                        ),
                    decreases rm.len() - j,
                {
                    let ghost pre = Seq::new(hs@.len(), |k: int| hs@[k]@);
                    proof {
                        assert(row_keys(rm).take(j as int + 1).drop_last() =~= row_keys(rm).take(
                            j as int,
                        ));
                        assert(row_keys(rm).take(j as int + 1).last() == rm[j as int].0);
                        assert(rm[j as int].0 == self.buffered@[i as int]@[j as int].0@);
                    }
                    let key_is_new = !contains_name(&hs, self.buffered[i][j].0.as_str());
                    if key_is_new {
                        let k = self.buffered[i][j].0.clone();
                        hs.push(k);
                        proof {
                            assert(Seq::new(hs@.len(), |k: int| hs@[k]@) =~= pre.push(
                                rm[j as int].0,
                            ));
                        }
                    }
                    j += 1;
                }
                proof {
                    assert(row_keys(rm).take(rm.len() as int) =~= row_keys(rm));
                    assert(m0.buffered.take(i as int + 1).drop_last() =~= m0.buffered.take(
                        i as int,
                    ));
                    assert(m0.buffered.take(i as int + 1).last() == rm);
                }
                i += 1;
            }
            proof {
                assert(m0.buffered.take(m0.buffered.len() as int) =~= m0.buffered);
            }
            // emit the header and every buffered row under it
            let ghost hm = Seq::new(hs@.len(), |k: int| hs@[k]@);
            let mut out: Vec<Vec<String>> = Vec::new();
            out.push(clone_record(&hs));
            let mut r: usize = 0;
            while r < self.buffered.len()
                invariant
                    r <= self.buffered@.len(),
                    self@ == m0,
                    writer_wf(m0),
                    hm == Seq::new(hs@.len(), |k: int| hs@[k]@),
                    hm == headers_of(m0.buffered),
                    out@.len() == r + 1,
                    record_model(out@[0]) == hm,
                    forall|k: int|
                        1 <= k <= r ==> record_model(#[trigger] out@[k]) == project_row(
                            hm,
                            m0.buffered[k - 1],
                        ),
                decreases self.buffered@.len() - r,
            {
                proof {
                    assert(row_wf(m0.buffered[r as int]));
                    assert(m0.buffered[r as int] == row_model(self.buffered@[r as int]));
                }
                let rec = project_record(&hs, &self.buffered[r]);
                out.push(rec);
                r += 1;
            }
            self.headers = hs;
            self.buffered = Vec::new();
            self.header_written = true;
            proof {
                assert(self@ =~= flush_state(m0));
                let lhs = records_model(out@);
                let rhs = flush_output(m0);
                assert forall|w: int| 0 <= w < lhs.len() implies lhs[w] == rhs[w] by {
                    if w > 0 {
                        assert(record_model(out@[w]) == project_row(hm, m0.buffered[w - 1]));
                        assert(rhs[w] == project_row(headers_of(m0.buffered), m0.buffered[w - 1]));
                    }
                }
                assert(lhs =~= rhs);
            }
            out
        } else {
            let out: Vec<Vec<String>> = Vec::new();
            proof {
                assert(self@ =~= flush_state(m0));
                assert(records_model(out@) =~= flush_output(m0));
            }
            out
        }
    }

    /// Processes one command, returning the CSV records to append to the
    /// store's file, in order.
    pub fn apply(&mut self, cmd: CsvCommand) -> (out: Vec<Vec<String>>)
        requires
            writer_wf(old(self)@),
            command_wf(cmd@),
        ensures
            final(self)@ == next_state(old(self)@, cmd@),
            records_model(out@) == output_of(old(self)@, cmd@),
            writer_wf(final(self)@),
    {
        let ghost m0 = self@;
        if self.stopped {
            let out: Vec<Vec<String>> = Vec::new();
            proof {
                assert(records_model(out@) =~= output_of(m0, cmd@));
            }
            return out;
        }
        match cmd {
            CsvCommand::Row(row) => {
                if !self.header_written {
                    let ghost rm = row_model(row);
                    self.buffered.push(row);
                    let out: Vec<Vec<String>> = Vec::new();
                    proof {
                        assert(self@.buffered =~= m0.buffered.push(rm));
                        assert(self@ =~= next_state(m0, CommandModel::Row(rm)));
                        assert(records_model(out@) =~= output_of(m0, CommandModel::Row(rm)));
                    }
                    out
                } else {
                    let rec = project_record(&self.headers, &row);
                    let mut out: Vec<Vec<String>> = Vec::new();
                    out.push(rec);
                    proof {
                        assert(self@ =~= next_state(m0, cmd@));
                        assert(records_model(out@) =~= output_of(m0, cmd@));
                    }
                    out
                }
            },
            CsvCommand::Flush => self.flush(),
            CsvCommand::Stop => {
                let out = self.flush();
                self.stopped = true;
                proof {
                    assert(self@ =~= next_state(m0, CommandModel::Stop));
                }
                out
            },
        }
    }
}

/// The writer state after a run of commands, applied in order.
pub open spec fn run_writer(m: WriterModel, cs: Seq<CommandModel>) -> WriterModel
    decreases cs.len(),
{
    if cs.len() == 0 {
        m
    } else {
        next_state(run_writer(m, cs.drop_last()), cs.last())
    }
}

/// Every record a run of commands emits, in order.
pub open spec fn run_output(m: WriterModel, cs: Seq<CommandModel>) -> Seq<Seq<Seq<char>>>
    decreases cs.len(),
{
    if cs.len() == 0 {
        Seq::empty()
    } else {
        run_output(m, cs.drop_last()) + output_of(run_writer(m, cs.drop_last()), cs.last())
    }
}

/// A key is in `add_keys(acc, ks)` exactly when it is in `acc` or in `ks`.
proof fn lemma_add_keys_contains(acc: Seq<Seq<char>>, ks: Seq<Seq<char>>, x: Seq<char>)
    ensures
        add_keys(acc, ks).contains(x) == (acc.contains(x) || ks.contains(x)),
    decreases ks.len(),
{
    if ks.len() == 0 {
        assert(!ks.contains(x));
    } else {
        let dl = ks.drop_last();
        lemma_add_keys_contains(acc, dl, x);
        let prev = add_keys(acc, dl);
        if dl.contains(x) {
            let i = choose|i: int| 0 <= i < dl.len() && dl[i] == x;
            assert(ks[i] == x);
            assert(ks.contains(x));
        }
        if x == ks.last() {
            assert(ks[ks.len() - 1] == x);
            assert(ks.contains(x));
        }
        if ks.contains(x) && !dl.contains(x) && x != ks.last() {
            let i = choose|i: int| 0 <= i < ks.len() && ks[i] == x;
            assert(dl[i] == x);
            assert(false);
        }
        if !prev.contains(ks.last()) && prev.push(ks.last()).contains(x) && !prev.contains(x) {
            let i = choose|i: int|
                0 <= i < prev.push(ks.last()).len() && prev.push(ks.last())[i] == x;
            if i < prev.len() {
                assert(prev[i] == x);
            }
        }
        if prev.contains(x) {
            let i = choose|i: int| 0 <= i < prev.len() && prev[i] == x;
            assert(prev.push(ks.last())[i] == x);
        }
        if x == ks.last() {
            assert(prev.push(ks.last())[prev.len() as int] == x);
        }
    }
}

/// Every key of every row of a run appears in the derived header.
pub proof fn lemma_headers_complete(
    rows: Seq<Seq<(Seq<char>, Seq<char>)>>,
    i: int,
    k: Seq<char>,
)
    requires
        0 <= i < rows.len(),
        row_keys(rows[i]).contains(k),
    ensures
        headers_of(rows).contains(k),
    decreases rows.len(),
{
    let dl = rows.drop_last();
    lemma_add_keys_contains(headers_of(dl), row_keys(rows.last()), k);
    if i < rows.len() - 1 {
        assert(dl[i] == rows[i]);
        lemma_headers_complete(dl, i, k);
    }
}

/// Feeding only rows to a fresh writer buffers them all and emits nothing.
proof fn lemma_rows_buffer(rows: Seq<Seq<(Seq<char>, Seq<char>)>>)
    ensures
        run_writer(initial_writer(), rows.map_values(|r| CommandModel::Row(r))) == (WriterModel {
            buffered: rows,
            ..initial_writer()
        }),
        run_output(initial_writer(), rows.map_values(|r| CommandModel::Row(r))) == Seq::<
            Seq<Seq<char>>,
        >::empty(),
    decreases rows.len(),
{
    let cs = rows.map_values(|r| CommandModel::Row(r));
    if rows.len() == 0 {
        assert(rows =~= Seq::<Seq<(Seq<char>, Seq<char>)>>::empty());
        assert(run_writer(initial_writer(), cs) =~= (WriterModel {
            buffered: rows,
            ..initial_writer()
        }));
    } else {
        lemma_rows_buffer(rows.drop_last());
        assert(cs.drop_last() =~= rows.drop_last().map_values(|r| CommandModel::Row(r)));
        assert(cs.last() == CommandModel::Row(rows.last()));
        assert(run_writer(initial_writer(), cs).buffered =~= rows);
        assert(run_writer(initial_writer(), cs) =~= (WriterModel {
            buffered: rows,
            ..initial_writer()
        }));
        assert(run_output(initial_writer(), cs) =~= Seq::<Seq<Seq<char>>>::empty());
    }
}

/// Header-freeze law: a fresh writer that receives a run of rows and then its
/// first flush emits exactly one header record followed by one record per
/// row, in arrival order; the header is the union of the rows' keys in
/// first-discovered order, every row is projected onto that one header, and
/// the header is frozen afterwards.
pub proof fn lemma_first_flush_emits_all(rows: Seq<Seq<(Seq<char>, Seq<char>)>>)
    requires
        rows.len() > 0,
    ensures
        ({
            let cs = rows.map_values(|r| CommandModel::Row(r)).push(CommandModel::Flush);
            let out = run_output(initial_writer(), cs);
            let hdr = headers_of(rows);
            &&& out.len() == 1 + rows.len()
            &&& out[0] == hdr
            &&& forall|i: int| 0 <= i < rows.len() ==> out[i + 1] == project_row(hdr, rows[i])
            &&& run_writer(initial_writer(), cs).header_written
            &&& run_writer(initial_writer(), cs).headers == hdr
        }),
{
    let rcs = rows.map_values(|r| CommandModel::Row(r));
    let cs = rcs.push(CommandModel::Flush);
    lemma_rows_buffer(rows);
    assert(cs.drop_last() =~= rcs);
    assert(cs.last() == CommandModel::Flush);
    let before = run_writer(initial_writer(), rcs);
    assert(before.buffered == rows);
    let out = run_output(initial_writer(), cs);
    assert(out =~= flush_output(before));
}


/// The bytes of a run of CSV records: each record's encoded line, in order.
pub open spec fn csv_bytes_of(records: Seq<Seq<Seq<char>>>) -> Seq<u8>
    decreases records.len(),
{
    if records.len() == 0 {
        Seq::empty()
    } else {
        csv_bytes_of(records.drop_last()) + crate::trusted::csv_line_of(records.last())
    }
}

/// Encodes a run of CSV records as the bytes to append to the file.
pub fn encode_records(records: &Vec<Vec<String>>) -> (r: Vec<u8>)
    ensures
        r@ == csv_bytes_of(records_model(records@)),
{
    let ghost m = records_model(records@);
    let mut out: Vec<u8> = Vec::new();
    let mut i: usize = 0;
    proof {
        assert(m.take(0) =~= Seq::<Seq<Seq<char>>>::empty());
        assert(out@ =~= csv_bytes_of(m.take(0)));
    }
    while i < records.len()
        invariant
            i <= records@.len(),
            m == records_model(records@),
            out@ == csv_bytes_of(m.take(i as int)),
        decreases records@.len() - i,
    {
        let mut line = crate::trusted::csv_encode_record(&records[i]);
        proof {
            assert(Seq::new(records@[i as int]@.len(), |w: int| records@[i as int]@[w]@)
                =~= record_model(records@[i as int]));
            assert(m.take(i as int + 1).drop_last() =~= m.take(i as int));
            assert(m.take(i as int + 1).last() == m[i as int]);
        }
        out.append(&mut line);
        i += 1;
    }
    proof {
        assert(m.take(m.len() as int) =~= m);
    }
    out
}

} // verus!
