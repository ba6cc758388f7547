//! The telemetry store registry: named stores of named, timestamped fields,
//! each store feeding its own CSV writer through a bounded command queue.
//!
//! Ingestion (`push`) appends a sample to a field in memory, then enqueues a
//! row snapshot — the latest cell of every field the store knows — for the
//! store's writer task.  The enqueue is best-effort: when the queue is full
//! the row is dropped rather than blocking the producer.

use vstd::prelude::*;
use vstd::string::StringExecFns;
use crate::csv_writer::{
    command_wf, row_model, row_wf, run_output, run_writer, CommandModel, CsvCommand,
    CsvWriterState,
};
use crate::errors::MiddlewareError;
use crate::keyed::{find_entry, entry_names, has_key, key_index, lemma_key_index_agrees,
    unique_keys, value_at};
use crate::trusted::now_unix_millis;
use crate::value::{cell_text, TelemetryValue};

verus! {

/// How many commands a store's writer queue holds before rows are dropped.
pub const CSV_QUEUE_CAPACITY: usize = 1024;

/// One telemetry sample: a timestamp in milliseconds since the Unix epoch
/// and a dynamically-typed value.  Immutable once created.
#[derive(Debug)]
pub struct TelemetryData {
    /// Milliseconds since the Unix epoch.
    pub timestamp: i64,
    /// The sampled value.
    pub value: TelemetryValue,
}

impl Clone for TelemetryData {
    fn clone(&self) -> (r: Self)
        ensures
            r == *self,
    {
        TelemetryData { timestamp: self.timestamp, value: self.value.clone() }
    }
}

impl TelemetryData {
    /// A null sample stamped with the current wall-clock time.
    pub fn new() -> (r: Self)
        ensures
            r.value == TelemetryValue::Null,
    {
        TelemetryData { timestamp: now_unix_millis(), value: TelemetryValue::Null }
    }

    /// A null sample with the given timestamp.
    pub fn with_timestamp(timestamp: i64) -> (r: Self)
        ensures
            r == (TelemetryData { timestamp, value: TelemetryValue::Null }),
    {
        TelemetryData { timestamp, value: TelemetryValue::Null }
    }

    /// Replaces the sample's value.
    pub fn with_value(&mut self, value: TelemetryValue)
        ensures
            *final(self) == (TelemetryData { timestamp: old(self).timestamp, value }),
    {
        self.value = value;
    }
}

/// The append-only time series of one named field within one store.
#[derive(Debug)]
pub struct TelemetryField {
    /// The samples, in arrival order; arrival order is time order.
    pub data: Vec<TelemetryData>,
}

impl Clone for TelemetryField {
    fn clone(&self) -> (r: Self)
        ensures
            r.data@ == self.data@,
    {
        TelemetryField { data: clone_samples(&self.data) }
    }
}

/// Copies a sample vector.
fn clone_samples(v: &Vec<TelemetryData>) -> (r: Vec<TelemetryData>)
    ensures
        r@ == v@,
{
    let mut r: Vec<TelemetryData> = Vec::new();
    let mut i: usize = 0;
    while i < v.len()
        invariant
            i <= v@.len(),
            r@ =~= v@.take(i as int),
        decreases v@.len() - i,
    {
        r.push(v[i].clone());
        i += 1;
    }
    proof {
        assert(v@.take(v@.len() as int) =~= v@);
    }
    r
}

impl TelemetryField {
    /// An empty field.
    pub fn new() -> (r: Self)
        ensures
            r.data@ == Seq::<TelemetryData>::empty(),
    {
        Self::with_capacity(0)
    }

    /// An empty field with room reserved for `capacity` samples.
    pub fn with_capacity(capacity: usize) -> (r: Self)
        ensures
            r.data@ == Seq::<TelemetryData>::empty(),
    {
        TelemetryField { data: Vec::with_capacity(capacity) }
    }

    /// Appends a sample.
    pub fn push(&mut self, data: TelemetryData)
        ensures
            final(self).data@ == old(self).data@.push(data),
    {
        self.data.push(data);
    }

    /// The most recent sample, if any.
    pub fn get_last(&self) -> (r: Option<TelemetryData>)
        ensures
            self.data@.len() == 0 ==> r is None,
            self.data@.len() > 0 ==> r == Some(self.data@.last()),
    {
        if self.data.len() == 0 {
            None
        } else {
            Some(self.data[self.data.len() - 1].clone())
        }
    }

    /// The last `min(n, count)` samples in chronological order, or `None`
    /// when the field has no samples or `n` is zero.
    pub fn get_last_n(&self, n: usize) -> (r: Option<Vec<TelemetryData>>)
        ensures
            (self.data@.len() == 0 || n == 0) <==> r is None,
            r matches Some(v) ==> v@ == self.data@.skip(
                if n < self.data@.len() {
                    self.data@.len() - n
                } else {
                    0
                },
            ),
    {
        if self.data.len() == 0 || n == 0 {
            return None;
        }
        let start: usize = if n < self.data.len() {
            self.data.len() - n
        } else {
            0
        };
        let mut out: Vec<TelemetryData> = Vec::new();
        let mut i: usize = start;
        while i < self.data.len()
            invariant
                start <= i <= self.data@.len(),
                out@ =~= self.data@.subrange(start as int, i as int),
            decreases self.data@.len() - i,
        {
            out.push(self.data[i].clone());
            i += 1;
        }
        proof {
            assert(out@ =~= self.data@.skip(start as int));
        }
        Some(out)
    }

    /// Every sample, in arrival order.
    pub fn get_all(&self) -> (r: Vec<TelemetryData>)
        ensures
            r@ == self.data@,
    {
        clone_samples(&self.data)
    }

    /// Discards every sample.
    pub fn clear(&mut self)
        ensures
            final(self).data@ == Seq::<TelemetryData>::empty(),
    {
        self.data.clear();
    }
}

/// Fields have pairwise-distinct names and each holds at least one sample
/// (a field is created by the push that delivers its first sample).
pub open spec fn fields_wf(fields: Seq<(String, TelemetryField)>) -> bool {
    unique_keys(fields) && forall|i: int|
        0 <= i < fields.len() ==> (#[trigger] fields[i]).1.data@.len() > 0
}

/// The samples of the field named `name`.
pub open spec fn field_data(fields: Seq<(String, TelemetryField)>, name: Seq<char>) -> Seq<
    TelemetryData,
> {
    value_at(fields, name).data@
}

/// The commands a queue holds, oldest first.
pub open spec fn queue_model(q: Seq<CsvCommand>) -> Seq<CommandModel> {
    Seq::new(q.len(), |i: int| q[i]@)
}

/// The queue is bounded and every queued row has distinct keys.
pub open spec fn queue_wf(q: Seq<CsvCommand>) -> bool {
    q.len() <= CSV_QUEUE_CAPACITY && forall|i: int|
        0 <= i < q.len() ==> command_wf(#[trigger] q[i]@)
}

/// A best-effort enqueue: appended when there is room, dropped when not.
pub open spec fn try_send_model(q: Seq<CommandModel>, c: CommandModel) -> Seq<CommandModel> {
    if q.len() < CSV_QUEUE_CAPACITY {
        q.push(c)
    } else {
        q
    }
}

/// The row snapshot of a store's fields: for every field, in insertion
/// order, its name and the cell text of its most recent value.
pub open spec fn snapshot(fields: Seq<(String, TelemetryField)>) -> Seq<(Seq<char>, Seq<char>)> {
    Seq::new(fields.len(), |i: int| (fields[i].0@, cell_text(fields[i].1.data@.last().value)))
}

/// How one push changes a store's fields: the sample is appended to the
/// named field, which is created with just this sample when absent; every
/// other field, and the field order, is untouched.
pub open spec fn push_field_effect(
    pre: Seq<(String, TelemetryField)>,
    post: Seq<(String, TelemetryField)>,
    name: Seq<char>,
    data: TelemetryData,
) -> bool {
    if has_key(pre, name) {
        let i = key_index(pre, name);
        &&& post.len() == pre.len()
        &&& forall|j: int| 0 <= j < pre.len() && j != i ==> post[j] == pre[j]
        &&& post[i].0 == pre[i].0
        &&& post[i].1.data@ == pre[i].1.data@.push(data)
    } else {
        &&& post.len() == pre.len() + 1
        &&& forall|j: int| 0 <= j < pre.len() ==> post[j] == pre[j]
        &&& post.last().0@ == name
        &&& post.last().1.data@ == seq![data]
    }
}

/// The samples the registry reports for a field, empty when the store or
/// field does not exist yet.
pub open spec fn reported_data(fields: Seq<(String, TelemetryField)>, name: Seq<char>) -> Seq<
    TelemetryData,
> {
    if has_key(fields, name) {
        field_data(fields, name)
    } else {
        Seq::empty()
    }
}

/// One push extends the reported samples of the named field by exactly the
/// pushed sample and leaves every other field's reported samples unchanged.
pub proof fn lemma_push_field_reported(
    pre: Seq<(String, TelemetryField)>,
    post: Seq<(String, TelemetryField)>,
    name: Seq<char>,
    data: TelemetryData,
)
    requires
        fields_wf(pre),
        push_field_effect(pre, post, name, data),
    ensures
        reported_data(post, name) == reported_data(pre, name).push(data),
        forall|k: Seq<char>| k != name ==> reported_data(post, k) == reported_data(pre, k),
        fields_wf(post),
        has_key(post, name),
{
    if has_key(pre, name) {
        let i = key_index(pre, name);
        assert(0 <= i < pre.len() && pre[i].0@ == name);
        assert(fields_wf(post)) by {
            assert(forall|j: int| 0 <= j < post.len() ==> (#[trigger] post[j]).0@ == pre[j].0@);
        }
        lemma_key_index_agrees(post, name, i);
        assert forall|k: Seq<char>| k != name implies reported_data(post, k) == reported_data(
            pre,
            k,
        ) by {
            assert(forall|j: int| 0 <= j < post.len() ==> (#[trigger] post[j]).0@ == pre[j].0@);
            if has_key(pre, k) {
                let w = key_index(pre, k);
                assert(0 <= w < pre.len() && pre[w].0@ == k);
                assert(w != i);
                lemma_key_index_agrees(post, k, w);
            } else {
                assert(!has_key(post, k));
            }
        }
    } else {
        assert(forall|j: int| 0 <= j < pre.len() ==> (#[trigger] post[j]).0@ == pre[j].0@);
        assert(fields_wf(post)) by {
            assert(forall|j: int| 0 <= j < pre.len() ==> (#[trigger] pre[j]).0@ != name);
        }
        lemma_key_index_agrees(post, name, post.len() - 1);
        assert forall|k: Seq<char>| k != name implies reported_data(post, k) == reported_data(
            pre,
            k,
        ) by {
            if has_key(pre, k) {
                let w = key_index(pre, k);
                lemma_key_index_agrees(post, k, w);
            } else {
                if has_key(post, k) {
                    let w = key_index(post, k);
                    assert(0 <= w < post.len() && post[w].0@ == k);
                    assert(w == post.len() - 1);
                }
            }
        }
    }
}

/// How one push changes a whole store: the field effect on its fields, the
/// new row snapshot offered to its bounded queue, and nothing else.
pub open spec fn push_store_effect(
    pre: TelemetryStore,
    post: TelemetryStore,
    field: Seq<char>,
    data: TelemetryData,
) -> bool {
    &&& push_field_effect(pre.fields@, post.fields@, field, data)
    &&& queue_model(post.queue@) == try_send_model(
        queue_model(pre.queue@),
        CommandModel::Row(snapshot(post.fields@)),
    )
    &&& post.recording == pre.recording
    &&& post.writer == pre.writer
    &&& post.path == pre.path
    &&& post.max_buffer_size == pre.max_buffer_size
}

/// One named telemetry store: its fields, its recording flag, and the
/// bounded command queue feeding its CSV writer task, whose decision state
/// lives alongside so the task's output is verified end to end.
pub struct TelemetryStore {
    /// The fields, keyed by name, in creation order.
    pub fields: Vec<(String, TelemetryField)>,
    /// Whether recording is active.
    pub recording: bool,
    /// Commands awaiting the writer task, oldest first.
    pub queue: Vec<CsvCommand>,
    /// The writer task's decision state.
    pub writer: CsvWriterState,
    /// The CSV file path the writer task is bound to.
    pub path: String,
    /// The configured in-memory window bound.
    pub max_buffer_size: usize,
}

impl TelemetryStore {
    /// The store's internal invariant.
    pub open spec fn wf(self) -> bool {
        fields_wf(self.fields@) && queue_wf(self.queue@) && crate::csv_writer::writer_wf(
            self.writer@,
        )
    }

    /// Everything but the fields and the queue is unchanged.
    pub open spec fn same_but_fields_queue(self, other: Self) -> bool {
        &&& self.recording == other.recording
        &&& self.writer == other.writer
        &&& self.path == other.path
        &&& self.max_buffer_size == other.max_buffer_size
    }

    /// A store bound to `path`, with the default in-memory window bound.
    pub fn new(path: String) -> (r: Self)
        ensures
            r.wf(),
            r.fields@.len() == 0,
            !r.recording,
            r.queue@.len() == 0,
            r.writer@ == crate::csv_writer::initial_writer(),
            r.path == path,
            r.max_buffer_size == 10000,
    {
        Self::with_buffer_size(path, 10000)
    }

    /// A store bound to `path` with the given in-memory window bound.
    pub fn with_buffer_size(path: String, max_buffer_size: usize) -> (r: Self)
        ensures
            r.wf(),
            r.fields@.len() == 0,
            !r.recording,
            r.queue@.len() == 0,
            r.writer@ == crate::csv_writer::initial_writer(),
            r.path == path,
            r.max_buffer_size == max_buffer_size,
    {
        TelemetryStore {
            fields: Vec::new(),
            recording: false,
            queue: Vec::new(),
            writer: CsvWriterState::new(),
            path,
            max_buffer_size,
        }
    }

    /// Best-effort enqueue for the writer task: drops the command when the
    /// queue is full, so ingestion never blocks on the writer.
    fn try_send(&mut self, cmd: CsvCommand)
        requires
            old(self).wf(),
            command_wf(cmd@),
        ensures
            final(self).wf(),
            queue_model(final(self).queue@) == try_send_model(queue_model(old(self).queue@), cmd@),
            final(self).fields == old(self).fields,
            final(self).recording == old(self).recording,
            final(self).writer == old(self).writer,
            final(self).path == old(self).path,
            final(self).max_buffer_size == old(self).max_buffer_size,
    {
        if self.queue.len() < CSV_QUEUE_CAPACITY {
            self.queue.push(cmd);
            proof {
                assert(queue_model(self.queue@) =~= try_send_model(
                    queue_model(old(self).queue@),
                    cmd@,
                ));
            }
        } else {
            proof {
                assert(queue_model(self.queue@) =~= try_send_model(
                    queue_model(old(self).queue@),
                    cmd@,
                ));
            }
        }
    }

    /// Appends `data` to the named field (creating the field on first use),
    /// then enqueues the new row snapshot for the writer task.
    pub fn push(&mut self, field: &str, data: TelemetryData)
        requires
            old(self).wf(),
        ensures
            final(self).wf(),
            push_store_effect(*old(self), *final(self), field@, data),
    {
        let ghost pre = self.fields@;
        match find_entry(&self.fields, field) {
            Some(i) => {
                let mut entry = self.fields.remove(i);
                entry.1.push(data);
                self.fields.insert(i, entry);
                proof {
                    lemma_key_index_agrees(pre, field@, i as int);
                    assert(forall|j: int|
                        0 <= j < pre.len() && j != i ==> self.fields@[j] == pre.remove(
                            i as int,
                        ).insert(i as int, self.fields@[i as int])[j]);
                    assert(forall|j: int|
                        0 <= j < pre.len() && j != i ==> self.fields@[j] == pre[j]);
                    assert(push_field_effect(pre, self.fields@, field@, data));
                }
            },
            None => {
                let mut f = TelemetryField::new();
                f.push(data);
                self.fields.push((field.to_owned(), f));
                proof {
                    assert(self.fields@.last().1.data@ =~= seq![data]);
                    assert(push_field_effect(pre, self.fields@, field@, data));
                }
            },
        }
        proof {
            lemma_push_field_reported(pre, self.fields@, field@, data);
        }
        let row = build_snapshot(&self.fields);
        self.try_send(CsvCommand::Row(row));
    }

    /// Starts recording: the flag alone; rows flow to the writer queue
    /// regardless and are persisted from the first flush on.
    pub fn start_recording(&mut self)
        requires
            old(self).wf(),
        ensures
            final(self).wf(),
            *final(self) == (TelemetryStore { recording: true, ..*old(self) }),
    {
        self.recording = true;
    }

    /// Stops recording and enqueues a flush so buffered rows reach the file.
    pub fn stop_recording(&mut self)
        requires
            old(self).wf(),
        ensures
            final(self).wf(),
            signal_store_effect(*old(self), *final(self), CommandModel::Flush),
    {
        self.recording = false;
        self.try_send(CsvCommand::Flush);
    }

    /// Whether recording is active.
    pub fn is_recording(&self) -> (r: bool)
        ensures
            r == self.recording,
    {
        self.recording
    }

    /// Tells the writer task to flush, close the file and terminate.
    pub fn shutdown(&mut self)
        requires
            old(self).wf(),
        ensures
            final(self).wf(),
            signal_store_effect(*old(self), *final(self), CommandModel::Stop),
    {
        self.recording = false;
        self.try_send(CsvCommand::Stop);
    }

    /// The named field, by value.
    pub fn get_field(&self, field: &str) -> (r: Result<TelemetryField, MiddlewareError>)
        requires
            self.wf(),
        ensures
            has_key(self.fields@, field@) <==> r is Ok,
            r matches Ok(f) ==> f.data@ == field_data(self.fields@, field@),
            r matches Err(e) ==> e == MiddlewareError::NotFound,
    {
        match find_entry(&self.fields, field) {
            Some(i) => {
                proof {
                    lemma_key_index_agrees(self.fields@, field@, i as int);
                }
                Ok(self.fields[i].1.clone())
            },
            None => Err(MiddlewareError::NotFound),
        }
    }

    /// The most recent sample of the named field.
    pub fn get_last(&self, field: &str) -> (r: Result<Option<TelemetryData>, MiddlewareError>)
        requires
            self.wf(),
        ensures
            has_key(self.fields@, field@) <==> r is Ok,
            r matches Ok(d) ==> d == Some(field_data(self.fields@, field@).last()),
            r matches Err(e) ==> e == MiddlewareError::NotFound,
    {
        match find_entry(&self.fields, field) {
            Some(i) => {
                proof {
                    lemma_key_index_agrees(self.fields@, field@, i as int);
                }
                Ok(self.fields[i].1.get_last())
            },
            None => Err(MiddlewareError::NotFound),
        }
    }

    /// The last `min(n, count)` samples of the named field in chronological
    /// order, `None` when `n` is zero.
    pub fn get_last_n(&self, field: &str, n: usize) -> (r: Result<
        Option<Vec<TelemetryData>>,
        MiddlewareError,
    >)
        requires
            self.wf(),
        ensures
            has_key(self.fields@, field@) <==> r is Ok,
            r matches Ok(o) ==> ({
                let d = field_data(self.fields@, field@);
                &&& (n == 0 <==> o is None)
                &&& o matches Some(v) ==> v@ == d.skip(
                    if n < d.len() {
                        d.len() - n
                    } else {
                        0
                    },
                )
            }),
            r matches Err(e) ==> e == MiddlewareError::NotFound,
    {
        match find_entry(&self.fields, field) {
            Some(i) => {
                proof {
                    lemma_key_index_agrees(self.fields@, field@, i as int);
                }
                Ok(self.fields[i].1.get_last_n(n))
            },
            None => Err(MiddlewareError::NotFound),
        }
    }

    /// Every sample of the named field, in arrival order.
    pub fn get_all(&self, field: &str) -> (r: Result<Vec<TelemetryData>, MiddlewareError>)
        requires
            self.wf(),
        ensures
            has_key(self.fields@, field@) <==> r is Ok,
            r matches Ok(v) ==> v@ == field_data(self.fields@, field@),
            r matches Err(e) ==> e == MiddlewareError::NotFound,
    {
        match find_entry(&self.fields, field) {
            Some(i) => {
                proof {
                    lemma_key_index_agrees(self.fields@, field@, i as int);
                }
                Ok(self.fields[i].1.get_all())
            },
            None => Err(MiddlewareError::NotFound),
        }
    }

    /// The field names, in creation order.
    pub fn field_names(&self) -> (r: Vec<String>)
        ensures
            r@.len() == self.fields@.len(),
            forall|i: int| 0 <= i < r@.len() ==> #[trigger] r@[i]@ == self.fields@[i].0@,
    {
        entry_names(&self.fields)
    }

    /// Runs the writer task's pending commands, returning the CSV records
    /// they produce, in order.  The caller appends them to the store's file.
    pub fn drain_writer(&mut self) -> (out: Vec<Vec<String>>)
        requires
            old(self).wf(),
        ensures
            final(self).wf(),
            final(self).queue@.len() == 0,
            final(self).writer@ == run_writer(old(self).writer@, queue_model(old(self).queue@)),
            crate::csv_writer::records_model(out@) == run_output(
                old(self).writer@,
                queue_model(old(self).queue@),
            ),
            final(self).fields == old(self).fields,
            final(self).recording == old(self).recording,
            final(self).path == old(self).path,
            final(self).max_buffer_size == old(self).max_buffer_size,
    {
        let ghost w0 = self.writer@;
        let ghost q0 = queue_model(self.queue@);
        let mut out: Vec<Vec<String>> = Vec::new();
        let initial_len: usize = self.queue.len();
        let ghost total = initial_len as nat;
        let mut k: usize = 0;
        proof {
            assert(q0.take(0) =~= Seq::<CommandModel>::empty());
        }
        while self.queue.len() > 0
            invariant
                k <= total <= usize::MAX,
                self.wf(),
                q0 == queue_model(old(self).queue@),
                q0.len() == total,
                self.queue@.len() == total - k,
                queue_model(self.queue@) =~= q0.skip(k as int),
                self.writer@ == run_writer(w0, q0.take(k as int)),
                crate::csv_writer::records_model(out@) =~= run_output(w0, q0.take(k as int)),
                self.fields == old(self).fields,
                self.recording == old(self).recording,
                self.path == old(self).path,
                self.max_buffer_size == old(self).max_buffer_size,
            decreases self.queue@.len(),
        {
            let ghost qpre = self.queue@;
            let cmd = self.queue.remove(0);
            proof {
                assert(queue_model(qpre) =~= q0.skip(k as int));
                assert(cmd == qpre[0]);
                assert(queue_model(qpre)[0] == qpre[0]@);
                assert(cmd@ == q0[k as int]);
                assert(command_wf(cmd@)) by {
                    assert(queue_wf(qpre));
                    assert(qpre[0]@ == cmd@);
                }
                assert(self.queue@ == qpre.remove(0));
                assert forall|j: int| 0 <= j < self.queue@.len() implies #[trigger] self.queue@[j]@
                    == q0.skip(k as int + 1)[j] by {
                    assert(self.queue@[j] == qpre[j + 1]);
                    assert(queue_model(qpre)[j + 1] == qpre[j + 1]@);
                }
                assert(queue_model(self.queue@) =~= q0.skip(k as int + 1));
                assert(q0.take(k as int + 1).drop_last() =~= q0.take(k as int));
                assert(q0.take(k as int + 1).last() == q0[k as int]);
                assert(k < total);
            }
            let mut recs = self.writer.apply(cmd);
            out.append(&mut recs);
            proof {
                assert(crate::csv_writer::records_model(out@) =~= run_output(
                    w0,
                    q0.take(k as int + 1),
                ));
                assert(queue_wf(self.queue@));
            }
            k += 1;
        }
        proof {
            assert(q0.take(total as int) =~= q0);
        }
        out
    }
}

/// How a stop or shutdown changes a store: recording is cleared, one command
/// is offered to its queue, and nothing else moves.
pub open spec fn signal_store_effect(
    pre: TelemetryStore,
    post: TelemetryStore,
    cmd: CommandModel,
) -> bool {
    &&& !post.recording
    &&& queue_model(post.queue@) == try_send_model(queue_model(pre.queue@), cmd)
    &&& post.fields == pre.fields
    &&& post.writer == pre.writer
    &&& post.path == pre.path
    &&& post.max_buffer_size == pre.max_buffer_size
}

/// A store as `push` builds it when the named store does not exist yet:
/// fresh, bound to `<store>.csv`, holding exactly the pushed sample and the
/// one row snapshot in its queue.
pub open spec fn fresh_store_push(
    s: TelemetryStore,
    store: Seq<char>,
    field: Seq<char>,
    data: TelemetryData,
) -> bool {
    &&& push_field_effect(Seq::empty(), s.fields@, field, data)
    &&& queue_model(s.queue@) == try_send_model(
        Seq::empty(),
        CommandModel::Row(snapshot(s.fields@)),
    )
    &&& !s.recording
    &&& s.writer@ == crate::csv_writer::initial_writer()
    &&& s.path@ == store + ".csv"@
}

/// How one registry push changes the store map: the named store receives the
/// push, or is created holding just this sample; every other store, and the
/// store order, is untouched.
pub open spec fn push_registry_effect(
    pre: Seq<(String, TelemetryStore)>,
    post: Seq<(String, TelemetryStore)>,
    store: Seq<char>,
    field: Seq<char>,
    data: TelemetryData,
) -> bool {
    if has_key(pre, store) {
        let i = key_index(pre, store);
        &&& post.len() == pre.len()
        &&& forall|j: int| 0 <= j < pre.len() && j != i ==> post[j] == pre[j]
        &&& post[i].0 == pre[i].0
        &&& push_store_effect(pre[i].1, post[i].1, field, data)
    } else {
        &&& post.len() == pre.len() + 1
        &&& forall|j: int| 0 <= j < pre.len() ==> post[j] == pre[j]
        &&& post.last().0@ == store
        &&& fresh_store_push(post.last().1, store, field, data)
    }
}

/// The samples the registry reports for a store's field, empty when the
/// store or the field does not exist yet.
pub open spec fn registry_data(
    stores: Seq<(String, TelemetryStore)>,
    store: Seq<char>,
    field: Seq<char>,
) -> Seq<TelemetryData> {
    if has_key(stores, store) {
        reported_data(value_at(stores, store).fields@, field)
    } else {
        Seq::empty()
    }
}

/// Store entries have pairwise-distinct names and every store is internally
/// consistent.
pub open spec fn stores_wf(stores: Seq<(String, TelemetryStore)>) -> bool {
    unique_keys(stores) && forall|i: int| 0 <= i < stores.len() ==> (#[trigger] stores[i]).1.wf()
}

/// One registry push extends the reported samples of exactly the pushed
/// store and field by the pushed sample.
pub proof fn lemma_push_registry_reported(
    pre: Seq<(String, TelemetryStore)>,
    post: Seq<(String, TelemetryStore)>,
    store: Seq<char>,
    field: Seq<char>,
    data: TelemetryData,
)
    requires
        stores_wf(pre),
        push_registry_effect(pre, post, store, field, data),
    ensures
        registry_data(post, store, field) == registry_data(pre, store, field).push(data),
        forall|s: Seq<char>, f: Seq<char>|
            s != store || f != field ==> registry_data(post, s, f) == registry_data(pre, s, f),
        has_key(post, store),
        stores_wf(post),
{
    if has_key(pre, store) {
        let i = key_index(pre, store);
        assert(0 <= i < pre.len() && pre[i].0@ == store);
        assert(forall|j: int| 0 <= j < post.len() ==> (#[trigger] post[j]).0@ == pre[j].0@);
        assert(pre[i].1.wf());
        lemma_push_field_reported(pre[i].1.fields@, post[i].1.fields@, field, data);
        assert(stores_wf(post)) by {
            assert(post[i].1.wf()) by {
                assert(queue_model(post[i].1.queue@).len() == post[i].1.queue@.len());
                assert(queue_wf(post[i].1.queue@)) by {
                    let qpre = pre[i].1.queue@;
                    let qpost = post[i].1.queue@;
                    assert(queue_model(qpost) == try_send_model(
                        queue_model(qpre),
                        CommandModel::Row(snapshot(post[i].1.fields@)),
                    ));
                    assert(qpost.len() <= CSV_QUEUE_CAPACITY);
                    assert forall|w: int| 0 <= w < qpost.len() implies command_wf(
                        #[trigger] qpost[w]@,
                    ) by {
                        assert(queue_model(qpost)[w] == qpost[w]@);
                        if w < qpre.len() {
                            assert(queue_model(qpre)[w] == qpre[w]@);
                            assert(command_wf(qpre[w]@));
                        } else {
                            assert(qpost[w]@ == CommandModel::Row(snapshot(post[i].1.fields@)));
                            lemma_snapshot_wf(post[i].1.fields@);
                        }
                    }
                }
            }
        }
        lemma_key_index_agrees(post, store, i);
        assert forall|s: Seq<char>, f: Seq<char>| s != store || f != field implies registry_data(
            post,
            s,
            f,
        ) == registry_data(pre, s, f) by {
            if s == store {
                lemma_key_index_agrees(pre, store, i);
            } else {
                if has_key(pre, s) {
                    let w = key_index(pre, s);
                    assert(0 <= w < pre.len() && pre[w].0@ == s);
                    assert(w != i);
                    lemma_key_index_agrees(post, s, w);
                    lemma_key_index_agrees(pre, s, w);
                } else {
                    assert(!has_key(post, s));
                }
            }
        }
        lemma_key_index_agrees(pre, store, i);
    } else {
        assert(forall|j: int| 0 <= j < pre.len() ==> (#[trigger] post[j]).0@ == pre[j].0@);
        assert(forall|j: int| 0 <= j < pre.len() ==> (#[trigger] pre[j]).0@ != store);
        let fresh = post.last().1;
        lemma_push_field_reported(Seq::empty(), fresh.fields@, field, data);
        assert(stores_wf(post)) by {
            assert(fresh.wf()) by {
                assert(queue_wf(fresh.queue@)) by {
                    let q = fresh.queue@;
                    assert(queue_model(q) == try_send_model(
                        Seq::empty(),
                        CommandModel::Row(snapshot(fresh.fields@)),
                    ));
                    assert(q.len() == queue_model(q).len());
                    assert forall|w: int| 0 <= w < q.len() implies command_wf(
                        #[trigger] q[w]@,
                    ) by {
                        assert(queue_model(q)[w] == q[w]@);
                        lemma_snapshot_wf(fresh.fields@);
                    }
                }
                assert(crate::csv_writer::writer_wf(fresh.writer@));
            }
        }
        lemma_key_index_agrees(post, store, post.len() - 1);
        assert forall|s: Seq<char>, f: Seq<char>| s != store || f != field implies registry_data(
            post,
            s,
            f,
        ) == registry_data(pre, s, f) by {
            if s != store {
                if has_key(pre, s) {
                    let w = key_index(pre, s);
                    lemma_key_index_agrees(post, s, w);
                    lemma_key_index_agrees(pre, s, w);
                } else {
                    if has_key(post, s) {
                        let w = key_index(post, s);
                        assert(0 <= w < post.len() && post[w].0@ == s);
                        assert(w == post.len() - 1);
                    }
                }
            }
        }
    }
}

/// A snapshot row inherits its distinct keys from the fields.
proof fn lemma_snapshot_wf(fields: Seq<(String, TelemetryField)>)
    requires
        unique_keys(fields),
    ensures
        row_wf(snapshot(fields)),
{
    assert forall|a: int, b: int|
        0 <= a < b < snapshot(fields).len() implies (#[trigger] snapshot(fields)[a]).0 != (
    #[trigger] snapshot(fields)[b]).0 by {
        assert(fields[a].0@ != fields[b].0@);
    }
}

/// Order law: after any run of pushes of `ds` to one store's field, the
/// registry reports exactly the samples it reported before, followed by
/// `ds`, in push order and with their timestamps untouched; every other
/// store and field reports what it reported before.
pub proof fn lemma_pushes_reported_in_order(
    states: Seq<Seq<(String, TelemetryStore)>>,
    store: Seq<char>,
    field: Seq<char>,
    ds: Seq<TelemetryData>,
)
    requires
        states.len() == ds.len() + 1,
        stores_wf(states[0]),
        forall|i: int|
            0 <= i < ds.len() ==> push_registry_effect(
                #[trigger] states[i],
                states[i + 1],
                store,
                field,
                ds[i],
            ),
    ensures
        registry_data(states.last(), store, field) == registry_data(states[0], store, field) + ds,
        forall|s: Seq<char>, f: Seq<char>|
            s != store || f != field ==> registry_data(states.last(), s, f) == registry_data(
                states[0],
                s,
                f,
            ),
        stores_wf(states.last()),
    decreases ds.len(),
{
    if ds.len() == 0 {
        assert(states.last() == states[0]);
        assert(registry_data(states[0], store, field) + ds =~= registry_data(
            states[0],
            store,
            field,
        ));
    } else {
        let shorter = states.drop_last();
        let dshort = ds.drop_last();
        assert(forall|i: int|
            0 <= i < dshort.len() ==> push_registry_effect(
                #[trigger] shorter[i],
                shorter[i + 1],
                store,
                field,
                dshort[i],
            )) by {
            assert(forall|i: int| 0 <= i < dshort.len() ==> #[trigger] shorter[i] == states[i]);
            assert(forall|i: int|
                0 <= i < dshort.len() ==> #[trigger] shorter[i + 1] == states[i + 1]);
            assert(forall|i: int| 0 <= i < dshort.len() ==> #[trigger] dshort[i] == ds[i]);
        }
        lemma_pushes_reported_in_order(shorter, store, field, dshort);
        assert(shorter.last() == states[states.len() - 2]);
        assert(push_registry_effect(
            states[states.len() - 2],
            states[states.len() - 1],
            store,
            field,
            ds[ds.len() - 1],
        ));
        lemma_push_registry_reported(
            states[states.len() - 2],
            states[states.len() - 1],
            store,
            field,
            ds[ds.len() - 1],
        );
        assert(registry_data(states.last(), store, field) =~= registry_data(
            states[0],
            store,
            field,
        ) + ds);
    }
}

/// A run of pushes into a fresh store leaves exactly its row snapshots in
/// the writer queue, oldest first, as long as the queue's capacity is not
/// exceeded.
proof fn lemma_session_queue(
    states: Seq<TelemetryStore>,
    names: Seq<Seq<char>>,
    datas: Seq<TelemetryData>,
)
    requires
        states.len() == datas.len() + 1,
        names.len() == datas.len(),
        datas.len() <= CSV_QUEUE_CAPACITY,
        states[0].queue@.len() == 0,
        forall|i: int|
            0 <= i < datas.len() ==> push_store_effect(
                #[trigger] states[i],
                states[i + 1],
                names[i],
                datas[i],
            ),
    ensures
        queue_model(states.last().queue@) =~= Seq::new(
            datas.len(),
            |i: int| CommandModel::Row(snapshot(states[i + 1].fields@)),
        ),
    decreases datas.len(),
{
    if datas.len() == 0 {
        assert(queue_model(states[0].queue@) =~= Seq::<CommandModel>::empty());
    } else {
        let shorter = states.drop_last();
        let nshort = names.drop_last();
        let dshort = datas.drop_last();
        assert(forall|i: int|
            0 <= i < dshort.len() ==> push_store_effect(
                #[trigger] shorter[i],
                shorter[i + 1],
                nshort[i],
                dshort[i],
            )) by {
            assert(forall|i: int| 0 <= i < dshort.len() ==> #[trigger] shorter[i] == states[i]);
            assert(forall|i: int|
                0 <= i < dshort.len() ==> #[trigger] shorter[i + 1] == states[i + 1]);
            assert(forall|i: int| 0 <= i < dshort.len() ==> #[trigger] nshort[i] == names[i]);
            assert(forall|i: int| 0 <= i < dshort.len() ==> #[trigger] dshort[i] == datas[i]);
        }
        lemma_session_queue(shorter, nshort, dshort);
        let n = datas.len() as int;
        let prev = states[n - 1];
        let last = states[n];
        assert(shorter.last() == prev);
        assert(push_store_effect(prev, last, names[n - 1], datas[n - 1]));
        assert(queue_model(prev.queue@).len() == n - 1);
        assert(prev.queue@.len() == n - 1);
        assert(queue_model(last.queue@) == try_send_model(
            queue_model(prev.queue@),
            CommandModel::Row(snapshot(last.fields@)),
        ));
        assert(queue_model(last.queue@) =~= Seq::new(
            n as nat,
            |i: int| CommandModel::Row(snapshot(states[i + 1].fields@)),
        ));
    }
}

/// Recording-session law: a fresh store that takes a run of pushes and then
/// a flush hands its file exactly one header record followed by one record
/// per push, in push order; the header is the union of the field names the
/// row snapshots carried, in first-discovered order, and every row is the
/// store's snapshot at its push, projected onto that one header.
pub proof fn lemma_recording_session_output(
    states: Seq<TelemetryStore>,
    names: Seq<Seq<char>>,
    datas: Seq<TelemetryData>,
)
    requires
        states.len() == datas.len() + 1,
        names.len() == datas.len(),
        0 < datas.len() <= CSV_QUEUE_CAPACITY,
        states[0].queue@.len() == 0,
        states[0].writer@ == crate::csv_writer::initial_writer(),
        forall|i: int|
            0 <= i < datas.len() ==> push_store_effect(
                #[trigger] states[i],
                states[i + 1],
                names[i],
                datas[i],
            ),
    ensures
        ({
            let rows = Seq::new(datas.len(), |i: int| snapshot(states[i + 1].fields@));
            let cmds = queue_model(states.last().queue@).push(CommandModel::Flush);
            let out = run_output(states[0].writer@, cmds);
            let hdr = crate::csv_writer::headers_of(rows);
            &&& out.len() == 1 + datas.len()
            &&& out[0] == hdr
            &&& forall|i: int|
                0 <= i < datas.len() ==> out[i + 1] == crate::csv_writer::project_row(
                    hdr,
                    rows[i],
                )
        }),
{
    let rows = Seq::new(datas.len(), |i: int| snapshot(states[i + 1].fields@));
    lemma_session_queue(states, names, datas);
    assert(queue_model(states.last().queue@).push(CommandModel::Flush) =~= rows.map_values(
        |r| CommandModel::Row(r),
    ).push(CommandModel::Flush));
    crate::csv_writer::lemma_first_flush_emits_all(rows);
}

/// The row snapshot of the store's fields, as the writer task receives it.
fn build_snapshot(fields: &Vec<(String, TelemetryField)>) -> (row: Vec<(String, String)>)
    requires
        fields_wf(fields@),
    ensures
        row_model(row) == snapshot(fields@),
        row_wf(row_model(row)),
{
    let mut row: Vec<(String, String)> = Vec::new();
    let mut i: usize = 0;
    while i < fields.len()
        invariant
            i <= fields@.len(),
            fields_wf(fields@),
            row@.len() == i,
            forall|j: int|
                0 <= j < i ==> #[trigger] row@[j].0@ == fields@[j].0@ && row@[j].1@ == cell_text(
                    fields@[j].1.data@.last().value,
                ),
        decreases fields@.len() - i,
    {
        let f = &fields[i].1;
        let cell = f.data[f.data.len() - 1].value.cell_string();
        row.push((fields[i].0.clone(), cell));
        i += 1;
    }
    proof {
        assert(row_model(row) =~= snapshot(fields@));
        assert forall|a: int, b: int|
            0 <= a < b < row_model(row).len() implies (#[trigger] row_model(row)[a]).0 != (
        #[trigger] row_model(row)[b]).0 by {
            assert(fields@[a].0@ != fields@[b].0@);
        }
    }
    row
}

/// The registry: every named telemetry store, in creation order.
pub struct TelemetryStores {
    /// The stores, keyed by name.
    pub stores: Vec<(String, TelemetryStore)>,
}

impl TelemetryStores {
    /// The registry's internal invariant.
    pub open spec fn wf(self) -> bool {
        stores_wf(self.stores@)
    }

    /// An empty registry.
    pub fn new() -> (r: Self)
        ensures
            r.wf(),
            r.stores@.len() == 0,
    {
        TelemetryStores { stores: Vec::new() }
    }

    /// Creates a store bound to `path`; refused when the name is taken.
    pub fn create_new_store(&mut self, store_name: &str, path: String) -> (r: Result<
        (),
        MiddlewareError,
    >)
        requires
            old(self).wf(),
        ensures
            final(self).wf(),
            has_key(old(self).stores@, store_name@) <==> r is Err,
            r matches Err(e) ==> e == MiddlewareError::AlreadyExists && *final(self) == *old(
                self,
            ),
            r is Ok ==> ({
                let post = final(self).stores@;
                let pre = old(self).stores@;
                &&& post.len() == pre.len() + 1
                &&& forall|j: int| 0 <= j < pre.len() ==> post[j] == pre[j]
                &&& post.last().0@ == store_name@
                &&& post.last().1.fields@.len() == 0
                &&& !post.last().1.recording
                &&& post.last().1.queue@.len() == 0
                &&& post.last().1.writer@ == crate::csv_writer::initial_writer()
                &&& post.last().1.path == path
            }),
    {
        match find_entry(&self.stores, store_name) {
            Some(_) => Err(MiddlewareError::AlreadyExists),
            None => {
                let ghost pre = self.stores@;
                let store = TelemetryStore::new(path);
                self.stores.push((store_name.to_owned(), store));
                proof {
                    assert(forall|j: int|
                        0 <= j < pre.len() ==> (#[trigger] pre[j]).0@ != store_name@);
                    assert(self.wf());
                }
                Ok(())
            },
        }
    }

    /// The store names, in creation order.
    pub fn list_stores(&self) -> (r: Vec<String>)
        ensures
            r@.len() == self.stores@.len(),
            forall|i: int| 0 <= i < r@.len() ==> #[trigger] r@[i]@ == self.stores@[i].0@,
    {
        entry_names(&self.stores)
    }

    /// Whether a store with this name exists.
    pub fn has_store(&self, store_name: &str) -> (r: bool)
        ensures
            r == has_key(self.stores@, store_name@),
    {
        find_entry(&self.stores, store_name).is_some()
    }

    /// Appends `data` to a field of a store, creating the field — and the
    /// store itself, bound to `<name>.csv` — on first use, then offers the
    /// new row snapshot to the store's writer queue.
    pub fn push(&mut self, store_name: &str, field: &str, data: TelemetryData) -> (r: Result<
        (),
        MiddlewareError,
    >)
        requires
            old(self).wf(),
        ensures
            final(self).wf(),
            r is Ok,
            has_key(final(self).stores@, store_name@),
            push_registry_effect(
                old(self).stores@,
                final(self).stores@,
                store_name@,
                field@,
                data,
            ),
            registry_data(final(self).stores@, store_name@, field@) == registry_data(
                old(self).stores@,
                store_name@,
                field@,
            ).push(data),
            forall|s: Seq<char>, f: Seq<char>|
                s != store_name@ || f != field@ ==> registry_data(final(self).stores@, s, f)
                    == registry_data(old(self).stores@, s, f),
    {
        let ghost pre = self.stores@;
        match find_entry(&self.stores, store_name) {
            Some(i) => {
                let mut entry = self.stores.remove(i);
                entry.1.push(field, data);
                self.stores.insert(i, entry);
                proof {
                    lemma_key_index_agrees(pre, store_name@, i as int);
                    assert(forall|j: int|
                        0 <= j < pre.len() && j != i ==> self.stores@[j] == pre[j]);
                    assert(push_registry_effect(pre, self.stores@, store_name@, field@, data));
                    lemma_push_registry_reported(pre, self.stores@, store_name@, field@, data);
                }
            },
            None => {
                let mut path = store_name.to_owned();
                path.append(".csv");
                let mut store = TelemetryStore::new(path);
                let ghost store0 = store;
                store.push(field, data);
                self.stores.push((store_name.to_owned(), store));
                proof {
                    let fresh = self.stores@.last().1;
                    assert(fresh_store_push(fresh, store_name@, field@, data)) by {
                        assert(store0.fields@ =~= Seq::<(String, TelemetryField)>::empty());
                        assert(queue_model(store0.queue@) =~= Seq::<CommandModel>::empty());
                        assert(push_store_effect(store0, fresh, field@, data));
                        assert(push_field_effect(Seq::empty(), fresh.fields@, field@, data));
                        assert(queue_model(fresh.queue@) == try_send_model(
                            Seq::empty(),
                            CommandModel::Row(snapshot(fresh.fields@)),
                        ));
                    }
                    assert(push_registry_effect(pre, self.stores@, store_name@, field@, data));
                    lemma_push_registry_reported(pre, self.stores@, store_name@, field@, data);
                }
            },
        }
        Ok(())
    }

    /// The most recent sample of a store's field.
    pub fn get_last(&self, store_name: &str, field: &str) -> (r: Result<
        Option<TelemetryData>,
        MiddlewareError,
    >)
        requires
            self.wf(),
        ensures
            r is Ok <==> registry_data(self.stores@, store_name@, field@).len() > 0,
            r matches Ok(d) ==> d == Some(registry_data(self.stores@, store_name@, field@).last()),
            r matches Err(e) ==> e == MiddlewareError::NotFound,
    {
        match find_entry(&self.stores, store_name) {
            Some(i) => {
                proof {
                    lemma_key_index_agrees(self.stores@, store_name@, i as int);
                }
                let r = self.stores[i].1.get_last(field);
                proof {
                    if has_key(self.stores@[i as int].1.fields@, field@) {
                        assert(registry_data(self.stores@, store_name@, field@) == field_data(
                            self.stores@[i as int].1.fields@,
                            field@,
                        ));
                    }
                }
                r
            },
            None => Err(MiddlewareError::NotFound),
        }
    }

    /// The last `min(n, count)` samples of a store's field in chronological
    /// order, `None` when `n` is zero.
    pub fn get_last_n(&self, store_name: &str, field: &str, n: usize) -> (r: Result<
        Option<Vec<TelemetryData>>,
        MiddlewareError,
    >)
        requires
            self.wf(),
        ensures
            r is Ok <==> registry_data(self.stores@, store_name@, field@).len() > 0,
            r matches Ok(o) ==> ({
                let d = registry_data(self.stores@, store_name@, field@);
                &&& (n == 0 <==> o is None)
                &&& o matches Some(v) ==> v@ == d.skip(
                    if n < d.len() {
                        d.len() - n
                    } else {
                        0
                    },
                )
            }),
            r matches Err(e) ==> e == MiddlewareError::NotFound,
    {
        match find_entry(&self.stores, store_name) {
            Some(i) => {
                proof {
                    lemma_key_index_agrees(self.stores@, store_name@, i as int);
                }
                let r = self.stores[i].1.get_last_n(field, n);
                proof {
                    if has_key(self.stores@[i as int].1.fields@, field@) {
                        assert(registry_data(self.stores@, store_name@, field@) == field_data(
                            self.stores@[i as int].1.fields@,
                            field@,
                        ));
                    }
                }
                r
            },
            None => Err(MiddlewareError::NotFound),
        }
    }

    /// Every sample of a store's field, in push order.
    pub fn get_all(&self, store_name: &str, field: &str) -> (r: Result<
        Vec<TelemetryData>,
        MiddlewareError,
    >)
        requires
            self.wf(),
        ensures
            r is Ok <==> registry_data(self.stores@, store_name@, field@).len() > 0,
            r matches Ok(v) ==> v@ == registry_data(self.stores@, store_name@, field@),
            r matches Err(e) ==> e == MiddlewareError::NotFound,
    {
        match find_entry(&self.stores, store_name) {
            Some(i) => {
                proof {
                    lemma_key_index_agrees(self.stores@, store_name@, i as int);
                }
                let r = self.stores[i].1.get_all(field);
                proof {
                    if has_key(self.stores@[i as int].1.fields@, field@) {
                        assert(registry_data(self.stores@, store_name@, field@) == field_data(
                            self.stores@[i as int].1.fields@,
                            field@,
                        ));
                    }
                }
                r
            },
            None => Err(MiddlewareError::NotFound),
        }
    }

    /// Turns recording on for the named store.
    pub fn start_recording(&mut self, store_name: &str) -> (r: Result<(), MiddlewareError>)
        requires
            old(self).wf(),
        ensures
            final(self).wf(),
            has_key(old(self).stores@, store_name@) <==> r is Ok,
            r matches Err(e) ==> e == MiddlewareError::NotFound && *final(self) == *old(self),
            r is Ok ==> ({
                let i = key_index(old(self).stores@, store_name@);
                let pre = old(self).stores@;
                let post = final(self).stores@;
                &&& post.len() == pre.len()
                &&& forall|j: int| 0 <= j < pre.len() && j != i ==> post[j] == pre[j]
                &&& post[i].0 == pre[i].0
                &&& post[i].1 == (TelemetryStore { recording: true, ..pre[i].1 })
            }),
    {
        let ghost pre = self.stores@;
        match find_entry(&self.stores, store_name) {
            Some(i) => {
                let mut entry = self.stores.remove(i);
                entry.1.start_recording();
                self.stores.insert(i, entry);
                proof {
                    lemma_key_index_agrees(pre, store_name@, i as int);
                    assert(forall|j: int|
                        0 <= j < pre.len() && j != i ==> self.stores@[j] == pre[j]);
                    assert(forall|j: int|
                        0 <= j < pre.len() ==> (#[trigger] self.stores@[j]).0@ == pre[j].0@);
                }
                Ok(())
            },
            None => Err(MiddlewareError::NotFound),
        }
    }

    /// Turns recording off for the named store and asks its writer task to
    /// flush, so buffered rows reach the file.
    pub fn stop_recording(&mut self, store_name: &str) -> (r: Result<(), MiddlewareError>)
        requires
            old(self).wf(),
        ensures
            final(self).wf(),
            has_key(old(self).stores@, store_name@) <==> r is Ok,
            r matches Err(e) ==> e == MiddlewareError::NotFound && *final(self) == *old(self),
            r is Ok ==> ({
                let i = key_index(old(self).stores@, store_name@);
                let pre = old(self).stores@;
                let post = final(self).stores@;
                &&& post.len() == pre.len()
                &&& forall|j: int| 0 <= j < pre.len() && j != i ==> post[j] == pre[j]
                &&& post[i].0 == pre[i].0
                &&& signal_store_effect(pre[i].1, post[i].1, CommandModel::Flush)
            }),
    {
        let ghost pre = self.stores@;
        match find_entry(&self.stores, store_name) {
            Some(i) => {
                let mut entry = self.stores.remove(i);
                entry.1.stop_recording();
                self.stores.insert(i, entry);
                proof {
                    lemma_key_index_agrees(pre, store_name@, i as int);
                    assert(forall|j: int|
                        0 <= j < pre.len() && j != i ==> self.stores@[j] == pre[j]);
                    assert(forall|j: int|
                        0 <= j < pre.len() ==> (#[trigger] self.stores@[j]).0@ == pre[j].0@);
                }
                Ok(())
            },
            None => Err(MiddlewareError::NotFound),
        }
    }

    /// Whether the named store is recording.
    pub fn is_recording(&self, store_name: &str) -> (r: bool)
        requires
            self.wf(),
        ensures
            r == (has_key(self.stores@, store_name@) && value_at(
                self.stores@,
                store_name@,
            ).recording),
    {
        match find_entry(&self.stores, store_name) {
            Some(i) => {
                proof {
                    lemma_key_index_agrees(self.stores@, store_name@, i as int);
                }
                self.stores[i].1.is_recording()
            },
            None => false,
        }
    }

    /// Sends `Stop` to every store's writer task: each flushes its buffered
    /// rows and releases its file when its task drains the queue.
    pub fn shutdown(&mut self)
        requires
            old(self).wf(),
        ensures
            final(self).wf(),
            final(self).stores@.len() == old(self).stores@.len(),
            forall|i: int|
                0 <= i < old(self).stores@.len() ==> (#[trigger] final(self).stores@[i]).0 == old(
                    self,
                ).stores@[i].0 && signal_store_effect(
                    old(self).stores@[i].1,
                    final(self).stores@[i].1,
                    CommandModel::Stop,
                ),
    {
        let ghost pre = self.stores@;
        let mut i: usize = 0;
        while i < self.stores.len()
            invariant
                i <= pre.len(),
                pre == old(self).stores@,
                self.stores@.len() == pre.len(),
                stores_wf(pre),
                forall|j: int|
                    0 <= j < i ==> (#[trigger] self.stores@[j]).0 == pre[j].0
                        && signal_store_effect(pre[j].1, self.stores@[j].1, CommandModel::Stop)
                        && self.stores@[j].1.wf(),
                forall|j: int| i <= j < pre.len() ==> #[trigger] self.stores@[j] == pre[j],
            decreases pre.len() - i,
        {
            let mut entry = self.stores.remove(i);
            entry.1.shutdown();
            self.stores.insert(i, entry);
            i += 1;
        }
        proof {
            assert(forall|j: int|
                0 <= j < self.stores@.len() ==> (#[trigger] self.stores@[j]).0@ == pre[j].0@);
            assert(self.wf());
        }
    }

    /// Runs the named store's writer task to quiescence, returning the CSV
    /// records to append to that store's file, in order.
    pub fn drain_writer(&mut self, store_name: &str) -> (r: Result<
        Vec<Vec<String>>,
        MiddlewareError,
    >)
        requires
            old(self).wf(),
        ensures
            final(self).wf(),
            has_key(old(self).stores@, store_name@) <==> r is Ok,
            r matches Err(e) ==> e == MiddlewareError::NotFound && *final(self) == *old(self),
            r matches Ok(out) ==> ({
                let i = key_index(old(self).stores@, store_name@);
                let pre = old(self).stores@;
                let post = final(self).stores@;
                &&& post.len() == pre.len()
                &&& forall|j: int| 0 <= j < pre.len() && j != i ==> post[j] == pre[j]
                &&& post[i].0 == pre[i].0
                &&& post[i].1.queue@.len() == 0
                &&& post[i].1.writer@ == run_writer(
                    pre[i].1.writer@,
                    queue_model(pre[i].1.queue@),
                )
                &&& crate::csv_writer::records_model(out@) == run_output(
                    pre[i].1.writer@,
                    queue_model(pre[i].1.queue@),
                )
                &&& post[i].1.fields == pre[i].1.fields
                &&& post[i].1.recording == pre[i].1.recording
                &&& post[i].1.path == pre[i].1.path
            }),
    {
        let ghost pre = self.stores@;
        match find_entry(&self.stores, store_name) {
            Some(i) => {
                let mut entry = self.stores.remove(i);
                let out = entry.1.drain_writer();
                self.stores.insert(i, entry);
                proof {
                    lemma_key_index_agrees(pre, store_name@, i as int);
                    assert(forall|j: int|
                        0 <= j < pre.len() && j != i ==> self.stores@[j] == pre[j]);
                    assert(forall|j: int|
                        0 <= j < pre.len() ==> (#[trigger] self.stores@[j]).0@ == pre[j].0@);
                }
                Ok(out)
            },
            None => Err(MiddlewareError::NotFound),
        }
    }


    /// Turns recording on for every store.
    pub fn start_recording_all(&mut self)
        requires
            old(self).wf(),
        ensures
            final(self).wf(),
            final(self).stores@.len() == old(self).stores@.len(),
            forall|i: int|
                0 <= i < old(self).stores@.len() ==> (#[trigger] final(self).stores@[i]).0 == old(
                    self,
                ).stores@[i].0 && final(self).stores@[i].1 == (TelemetryStore {
                    recording: true,
                    ..old(self).stores@[i].1
                }),
    {
        let ghost pre = self.stores@;
        let mut i: usize = 0;
        while i < self.stores.len()
            invariant
                i <= pre.len(),
                pre == old(self).stores@,
                self.stores@.len() == pre.len(),
                stores_wf(pre),
                forall|j: int|
                    0 <= j < i ==> (#[trigger] self.stores@[j]).0 == pre[j].0 && self.stores@[j].1
                        == (TelemetryStore { recording: true, ..pre[j].1 }),
                forall|j: int| i <= j < pre.len() ==> #[trigger] self.stores@[j] == pre[j],
            decreases pre.len() - i,
        {
            let mut entry = self.stores.remove(i);
            entry.1.start_recording();
            self.stores.insert(i, entry);
            i += 1;
        }
        proof {
            assert(forall|j: int|
                0 <= j < self.stores@.len() ==> (#[trigger] self.stores@[j]).0@ == pre[j].0@);
            assert(self.wf());
        }
    }

    /// Turns recording off for every store, asking each writer to flush.
    pub fn stop_recording_all(&mut self)
        requires
            old(self).wf(),
        ensures
            final(self).wf(),
            final(self).stores@.len() == old(self).stores@.len(),
            forall|i: int|
                0 <= i < old(self).stores@.len() ==> (#[trigger] final(self).stores@[i]).0 == old(
                    self,
                ).stores@[i].0 && signal_store_effect(
                    old(self).stores@[i].1,
                    final(self).stores@[i].1,
                    CommandModel::Flush,
                ),
    {
        let ghost pre = self.stores@;
        let mut i: usize = 0;
        while i < self.stores.len()
            invariant
                i <= pre.len(),
                pre == old(self).stores@,
                self.stores@.len() == pre.len(),
                stores_wf(pre),
                forall|j: int|
                    0 <= j < i ==> (#[trigger] self.stores@[j]).0 == pre[j].0
                        && signal_store_effect(pre[j].1, self.stores@[j].1, CommandModel::Flush)
                        && self.stores@[j].1.wf(),
                forall|j: int| i <= j < pre.len() ==> #[trigger] self.stores@[j] == pre[j],
            decreases pre.len() - i,
        {
            let mut entry = self.stores.remove(i);
            entry.1.stop_recording();
            self.stores.insert(i, entry);
            i += 1;
        }
        proof {
            assert(forall|j: int|
                0 <= j < self.stores@.len() ==> (#[trigger] self.stores@[j]).0@ == pre[j].0@);
            assert(self.wf());
        }
    }

    /// The CSV path the named store's writer is bound to.
    pub fn get_path(&self, store_name: &str) -> (r: Result<String, MiddlewareError>)
        requires
            self.wf(),
        ensures
            has_key(self.stores@, store_name@) <==> r is Ok,
            r matches Ok(p) ==> p@ == value_at(self.stores@, store_name@).path@,
            r matches Err(e) ==> e == MiddlewareError::NotFound,
    {
        match find_entry(&self.stores, store_name) {
            Some(i) => {
                proof {
                    lemma_key_index_agrees(self.stores@, store_name@, i as int);
                }
                Ok(self.stores[i].1.path.clone())
            },
            None => Err(MiddlewareError::NotFound),
        }
    }
}

} // verus!
