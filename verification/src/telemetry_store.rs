//! The unified telemetry store: per-key streams of multi-field samples with
//! a bounded in-memory window, all recorded to a single CSV file.
//!
//! Unlike the per-store registry, one recording covers every stream: the
//! header `timestamp, stream_key, <field keys>` is written when recording
//! starts, and each sample ingested while recording appends one row.  The
//! rows are handed to the file-writing layer through `take_pending`.

use vstd::prelude::*;
use vstd::string::StringExecFns;
use crate::csv_writer::{add_keys, contains_name, record_model, row_wf};
use crate::errors::MiddlewareError;
use crate::keyed::{entry_names, find_entry, has_key, key_index, lemma_key_index_agrees,
    unique_keys, value_at};
use crate::trusted::{now_unix_millis, rfc3339_millis, rfc3339_of};
use crate::value::{cell_text, dec_int, i64_to_dec, TelemetryValue};

verus! {

/// One sample with named, dynamically-typed fields and a timestamp in
/// milliseconds since the Unix epoch.
#[derive(Debug)]
pub struct TelemetryData {
    /// Milliseconds since the Unix epoch.
    pub timestamp: i64,
    /// The sample's fields, keyed by name, in insertion order.
    pub fields: Vec<(String, TelemetryValue)>,
}

/// A sample as specifications see it: the timestamp and the `(name, value)`
/// pairs, in insertion order.
#[verifier::ext_equal]
pub ghost struct DataModel {
    /// Milliseconds since the Unix epoch.
    pub timestamp: int,
    /// The fields, keyed by name view.
    pub fields: Seq<(Seq<char>, TelemetryValue)>,
}

impl View for TelemetryData {
    type V = DataModel;

    open spec fn view(&self) -> DataModel {
        DataModel {
            timestamp: self.timestamp as int,
            fields: Seq::new(self.fields@.len(), |i: int| (self.fields@[i].0@, self.fields@[i].1)),
        }
    }
}

/// The run of sample views of a sample vector.
pub open spec fn samples_model(v: Seq<TelemetryData>) -> Seq<DataModel> {
    Seq::new(v.len(), |i: int| v[i]@)
}

/// Samples that agree on timestamp and field views are view-equal.
proof fn lemma_data_view(a: TelemetryData, b: TelemetryData)
    requires
        a.timestamp == b.timestamp,
        a.fields@ == b.fields@,
    ensures
        a@ == b@,
{
    assert(a@.fields =~= b@.fields);
    assert(a@ =~= b@);
}

/// The sample's field names are pairwise distinct; `set_field` keeps it so.
pub open spec fn data_wf(d: TelemetryData) -> bool {
    unique_keys(d.fields@)
}

/// The view of a sample's fields as `(name, cell)` pairs of the CSV row it
/// produces.
pub open spec fn data_cells(d: TelemetryData) -> Seq<(Seq<char>, Seq<char>)> {
    Seq::new(d.fields@.len(), |i: int| (d.fields@[i].0@, cell_text(d.fields@[i].1)))
}

/// The sample's field names, in insertion order.
pub open spec fn data_keys(d: TelemetryData) -> Seq<Seq<char>> {
    Seq::new(d.fields@.len(), |i: int| d.fields@[i].0@)
}

impl Clone for TelemetryData {
    fn clone(&self) -> (r: Self)
        ensures
            r.timestamp == self.timestamp,
            r.fields@ == self.fields@,
            r@ == self@,
    {
        let mut fields: Vec<(String, TelemetryValue)> = Vec::new();
        let mut i: usize = 0;
        while i < self.fields.len()
            invariant
                i <= self.fields@.len(),
                fields@ =~= self.fields@.take(i as int),
            decreases self.fields@.len() - i,
        {
            fields.push((self.fields[i].0.clone(), self.fields[i].1.clone()));
            i += 1;
        }
        proof {
            assert(self.fields@.take(self.fields@.len() as int) =~= self.fields@);
        }
        let r = TelemetryData { timestamp: self.timestamp, fields };
        proof {
            lemma_data_view(r, *self);
        }
        r
    }
}

impl TelemetryData {
    /// A sample with no fields, stamped with the current wall-clock time.
    pub fn new() -> (r: Self)
        ensures
            r.fields@.len() == 0,
            data_wf(r),
    {
        TelemetryData { timestamp: now_unix_millis(), fields: Vec::new() }
    }

    /// A sample with no fields and the given timestamp.
    pub fn with_timestamp(timestamp: i64) -> (r: Self)
        ensures
            r.timestamp == timestamp,
            r.fields@.len() == 0,
            data_wf(r),
    {
        TelemetryData { timestamp, fields: Vec::new() }
    }

    /// Sets a field, replacing any earlier value under the same name.
    pub fn set_field(&mut self, key: String, value: TelemetryValue)
        requires
            data_wf(*old(self)),
        ensures
            data_wf(*final(self)),
            final(self).timestamp == old(self).timestamp,
            has_key(final(self).fields@, key@),
            value_at(final(self).fields@, key@) == value,
            data_keys(*final(self)) == (if has_key(old(self).fields@, key@) {
                data_keys(*old(self))
            } else {
                data_keys(*old(self)).push(key@)
            }),
            forall|k: Seq<char>|
                k != key@ ==> #[trigger] has_key(final(self).fields@, k) == has_key(
                    old(self).fields@,
                    k,
                ) && (has_key(old(self).fields@, k) ==> value_at(final(self).fields@, k)
                    == value_at(old(self).fields@, k)),
    {
        let ghost pre = self.fields@;
        match find_entry(&self.fields, key.as_str()) {
            Some(i) => {
                let mut entry = self.fields.remove(i);
                entry.1 = value;
                self.fields.insert(i, entry);
                proof {
                    lemma_key_index_agrees(pre, key@, i as int);
                    assert(forall|j: int|
                        0 <= j < pre.len() && j != i ==> self.fields@[j] == pre[j]);
                    assert(forall|j: int|
                        0 <= j < pre.len() ==> (#[trigger] self.fields@[j]).0@ == pre[j].0@);
                    assert(data_wf(*self));
                    lemma_key_index_agrees(self.fields@, key@, i as int);
                    assert(data_keys(*self) =~= Seq::new(pre.len(), |j: int| pre[j].0@));
                    assert(data_keys(*self) =~= data_keys(*old(self)));
                    assert forall|k: Seq<char>| k != key@ implies #[trigger] has_key(
                        self.fields@,
                        k,
                    ) == has_key(pre, k) && (has_key(pre, k) ==> value_at(self.fields@, k)
                        == value_at(pre, k)) by {
                        if has_key(pre, k) {
                            let w = key_index(pre, k);
                            assert(0 <= w < pre.len() && pre[w].0@ == k);
                            assert(w != i);
                            lemma_key_index_agrees(self.fields@, k, w);
                        } else {
                            assert(!has_key(self.fields@, k));
                        }
                    }
                }
            },
            None => {
                self.fields.push((key, value));
                proof {
                    assert(forall|j: int| 0 <= j < pre.len() ==> (#[trigger] pre[j]).0@ != key@);
                    assert(data_wf(*self));
                    lemma_key_index_agrees(self.fields@, key@, pre.len() as int);
                    assert(data_keys(*self) =~= data_keys(*old(self)).push(key@));
                    assert forall|k: Seq<char>| k != key@ implies #[trigger] has_key(
                        self.fields@,
                        k,
                    ) == has_key(pre, k) && (has_key(pre, k) ==> value_at(self.fields@, k)
                        == value_at(pre, k)) by {
                        if has_key(pre, k) {
                            let w = key_index(pre, k);
                            lemma_key_index_agrees(self.fields@, k, w);
                        } else {
                            if has_key(self.fields@, k) {
                                let w = key_index(self.fields@, k);
                                assert(0 <= w < self.fields@.len() && self.fields@[w].0@ == k);
                                assert(w == pre.len());
                            }
                        }
                    }
                }
            },
        }
    }

    /// The value of the named field, if set.
    pub fn get_field(&self, key: &str) -> (r: Option<TelemetryValue>)
        requires
            data_wf(*self),
        ensures
            r is Some <==> has_key(self.fields@, key@),
            r matches Some(v) ==> v == value_at(self.fields@, key@),
    {
        match find_entry(&self.fields, key) {
            Some(i) => {
                proof {
                    lemma_key_index_agrees(self.fields@, key@, i as int);
                }
                Some(self.fields[i].1.clone())
            },
            None => None,
        }
    }

    /// The named field's text, when it holds a textual value.
    pub fn get_field_as_string(&self, key: &str) -> (r: Option<String>)
        requires
            data_wf(*self),
        ensures
            r matches Some(s) ==> has_key(self.fields@, key@) && (value_at(self.fields@, key@)
                matches TelemetryValue::Text(t) && s@ == t@),
            r is None ==> !has_key(self.fields@, key@) || !(value_at(
                self.fields@,
                key@,
            ) is Text),
    {
        match self.get_field(key) {
            Some(TelemetryValue::Text(s)) => Some(s),
            _ => None,
        }
    }
}

/// The in-memory record of one stream: its samples, oldest first, and every
/// field name its samples have ever carried, in first-seen order.
#[derive(Debug)]
pub struct TelemetryStream {
    /// The samples in the bounded window, oldest first.
    pub data: Vec<TelemetryData>,
    /// Every field name seen on this stream, in first-seen order.
    pub field_keys: Vec<String>,
}

/// The stream's field-name views, in order.
pub open spec fn stream_keys(s: TelemetryStream) -> Seq<Seq<char>> {
    Seq::new(s.field_keys@.len(), |i: int| s.field_keys@[i]@)
}

/// Field names are distinct and every stored sample is well formed.
pub open spec fn stream_wf(s: TelemetryStream) -> bool {
    &&& forall|i: int, j: int|
        0 <= i < j < s.field_keys@.len() ==> #[trigger] s.field_keys@[i]@ != #[trigger] s
            .field_keys@[j]@
    &&& forall|i: int| 0 <= i < s.data@.len() ==> data_wf(#[trigger] s.data@[i])
}

impl TelemetryStream {
    /// An empty stream.
    pub fn new() -> (r: Self)
        ensures
            r.data@.len() == 0,
            r.field_keys@.len() == 0,
            stream_wf(r),
    {
        TelemetryStream { data: Vec::new(), field_keys: Vec::new() }
    }

    /// Appends a sample, recording any field names not seen before and
    /// evicting the oldest sample when the window exceeds `max_size`.
    pub fn add_data(&mut self, data: TelemetryData, max_size: usize)
        requires
            stream_wf(*old(self)),
            data_wf(data),
        ensures
            stream_wf(*final(self)),
            stream_keys(*final(self)) == add_keys(stream_keys(*old(self)), data_keys(data)),
            final(self).data@ == ({
                let appended = old(self).data@.push(data);
                if appended.len() > max_size {
                    appended.skip(1)
                } else {
                    appended
                }
            }),
    {
        let ghost keys0 = stream_keys(*self);
        let ghost dk = data_keys(data);
        let nfields = data.fields.len();
        let mut j: usize = 0;
        while j < nfields
            invariant
                j <= dk.len(),
                nfields == dk.len(),
                dk == data_keys(data),
                data_wf(data),
                dk == Seq::new(data.fields@.len(), |w: int| data.fields@[w].0@),
                stream_keys(*self) == add_keys(keys0, dk.take(j as int)),
                forall|a: int, b: int|
                    0 <= a < b < self.field_keys@.len() ==> #[trigger] self.field_keys@[a]@
                        != #[trigger] self.field_keys@[b]@,
                self.data == old(self).data,
            decreases dk.len() - j,
        {
            let ghost pre = stream_keys(*self);
            proof {
                assert(dk.take(j as int + 1).drop_last() =~= dk.take(j as int));
                assert(dk.take(j as int + 1).last() == dk[j as int]);
                assert(dk[j as int] == data.fields@[j as int].0@);
            }
            let key_is_new = !contains_name(&self.field_keys, data.fields[j].0.as_str());
            if key_is_new {
                proof {
                    assert(forall|a: int|
                        0 <= a < pre.len() ==> #[trigger] pre[a] != dk[j as int]);
                }
                let k = data.fields[j].0.clone();
                self.field_keys.push(k);
                proof {
                    assert(stream_keys(*self) =~= pre.push(dk[j as int]));
                    assert forall|a: int, b: int|
                        0 <= a < b < self.field_keys@.len() implies #[trigger] self.field_keys@[a]@
                        != #[trigger] self.field_keys@[b]@ by {
                        if b == self.field_keys@.len() - 1 {
                            assert(pre[a] == self.field_keys@[a]@);
                            assert(self.field_keys@[b]@ == dk[j as int]);
                        }
                    }
                }
            }
            j += 1;
        }
        proof {
            assert(dk.take(dk.len() as int) =~= dk);
        }
        self.data.push(data);
        if self.data.len() > max_size {
            self.data.remove(0);
            proof {
                assert(self.data@ =~= old(self).data@.push(data).skip(1));
            }
        }
    }

    /// The last `min(n, count)` samples, in chronological order.
    pub fn get_last_n(&self, n: usize) -> (r: Vec<TelemetryData>)
        ensures
            samples_model(r@) == samples_model(self.data@).skip(
                if n < self.data@.len() {
                    self.data@.len() - n
                } else {
                    0
                },
            ),
    {
        let start: usize = if n < self.data.len() {
            self.data.len() - n
        } else {
            0
        };
        let mut out: Vec<TelemetryData> = Vec::new();
        let mut i: usize = start;
        while i < self.data.len()
            invariant
                start <= i <= self.data@.len(),
                forall|j: int| 0 <= j < out@.len() ==> #[trigger] out@[j]@ == self.data@[start + j]@,
                out@.len() == i - start,
            decreases self.data@.len() - i,
        {
            out.push(self.data[i].clone());
            i += 1;
        }
        proof {
            assert(samples_model(out@) =~= samples_model(self.data@).skip(start as int));
        }
        out
    }

    /// Every sample in the window, oldest first.
    pub fn get_all(&self) -> (r: Vec<TelemetryData>)
        ensures
            samples_model(r@) == samples_model(self.data@),
    {
        let r = self.get_last_n(self.data.len());
        proof {
            assert(samples_model(self.data@).skip(0) =~= samples_model(self.data@));
        }
        r
    }

    /// Discards the samples; the remembered field names stay.
    pub fn clear(&mut self)
        ensures
            final(self).data@ == Seq::<TelemetryData>::empty(),
            final(self).field_keys == old(self).field_keys,
    {
        self.data.clear();
    }
}


/// The union of all field names across streams, in the order the streams
/// were created and their fields first seen.
pub open spec fn all_field_keys_model(streams: Seq<(String, TelemetryStream)>) -> Seq<Seq<char>>
    decreases streams.len(),
{
    if streams.len() == 0 {
        Seq::empty()
    } else {
        add_keys(all_field_keys_model(streams.drop_last()), stream_keys(streams.last().1))
    }
}

/// The total sample count across streams.
pub open spec fn total_count_model(streams: Seq<(String, TelemetryStream)>) -> int
    decreases streams.len(),
{
    if streams.len() == 0 {
        0
    } else {
        total_count_model(streams.drop_last()) + streams.last().1.data@.len()
    }
}

/// The unified store: every stream recorded, while recording is on, into one
/// CSV file whose header is fixed when recording starts.
pub struct TelemetryStore {
    /// The streams, keyed by name, in creation order.
    pub streams: Vec<(String, TelemetryStream)>,
    /// Whether the unified recording is active.
    pub recording: bool,
    /// The CSV file of the current (or last) recording.
    pub csv_path: Option<String>,
    /// CSV records awaiting the file-writing layer, oldest first.
    pub pending: Vec<Vec<String>>,
    /// The per-stream in-memory window bound.
    pub max_buffer_size: usize,
}

impl TelemetryStore {
    /// The store's internal invariant.
    pub open spec fn wf(self) -> bool {
        &&& unique_keys(self.streams@)
        &&& forall|i: int|
            0 <= i < self.streams@.len() ==> stream_wf((#[trigger] self.streams@[i]).1)
        &&& self.recording ==> self.csv_path is Some
    }

    /// A store with the default per-stream window bound.
    pub fn new() -> (r: Self)
        ensures
            r.wf(),
            r.streams@.len() == 0,
            !r.recording,
            r.csv_path is None,
            r.pending@.len() == 0,
            r.max_buffer_size == 10000,
    {
        Self::with_buffer_size(10000)
    }

    /// A store with the given per-stream window bound.
    pub fn with_buffer_size(max_buffer_size: usize) -> (r: Self)
        ensures
            r.wf(),
            r.streams@.len() == 0,
            !r.recording,
            r.csv_path is None,
            r.pending@.len() == 0,
            r.max_buffer_size == max_buffer_size,
    {
        TelemetryStore {
            streams: Vec::new(),
            recording: false,
            csv_path: None,
            pending: Vec::new(),
            max_buffer_size,
        }
    }

    /// The union of all field names across streams, in first-seen order.
    pub fn get_all_field_keys(&self) -> (r: Vec<String>)
        requires
            self.wf(),
        ensures
            Seq::new(r@.len(), |i: int| r@[i]@) == all_field_keys_model(self.streams@),
    {
        let ghost m = self.streams@;
        let mut keys: Vec<String> = Vec::new();
        let mut i: usize = 0;
        while i < self.streams.len()
            invariant
                i <= m.len(),
                m == self.streams@,
                self.wf(),
                Seq::new(keys@.len(), |k: int| keys@[k]@) == all_field_keys_model(
                    m.take(i as int),
                ),
            decreases m.len() - i,
        {
            let ghost acc0 = Seq::new(keys@.len(), |k: int| keys@[k]@);
            let ghost sk = stream_keys(m[i as int].1);
            let nkeys = self.streams[i].1.field_keys.len();
            let mut j: usize = 0;
            while j < nkeys
                invariant
                    j <= sk.len(),
                    nkeys == sk.len(),
                    i < m.len(),
                    m == self.streams@,
                    self.wf(),
                    sk == stream_keys(m[i as int].1),
                    acc0 == all_field_keys_model(m.take(i as int)),
                    Seq::new(keys@.len(), |k: int| keys@[k]@) == add_keys(
                        acc0,
                        sk.take(j as int),
                    ),
                decreases sk.len() - j,
            {
                let ghost pre = Seq::new(keys@.len(), |k: int| keys@[k]@);
                proof {
                    assert(sk.take(j as int + 1).drop_last() =~= sk.take(j as int));
                    assert(sk.take(j as int + 1).last() == sk[j as int]);
                    assert(sk[j as int] == self.streams@[i as int].1.field_keys@[j as int]@);
                }
                let key_is_new = !contains_name(&keys, self.streams[i].1.field_keys[j].as_str());
                if key_is_new {
                    let k = self.streams[i].1.field_keys[j].clone();
                    keys.push(k);
                    proof {
                        assert(Seq::new(keys@.len(), |k: int| keys@[k]@) =~= pre.push(
                            sk[j as int],
                        ));
                    }
                }
                j += 1;
            }
            proof {
                assert(sk.take(sk.len() as int) =~= sk);
                assert(m.take(i as int + 1).drop_last() =~= m.take(i as int));
                assert(m.take(i as int + 1).last() == m[i as int]);
            }
            i += 1;
        }
        proof {
            assert(m.take(m.len() as int) =~= m);
        }
        keys
    }

    /// The sample's `(name, cell)` pairs as one CSV row fragment.
    fn data_cells_exec(data: &TelemetryData) -> (row: Vec<(String, String)>)
        requires
            data_wf(*data),
        ensures
            crate::csv_writer::row_model(row) == data_cells(*data),
            row_wf(crate::csv_writer::row_model(row)),
    {
        let mut row: Vec<(String, String)> = Vec::new();
        let mut i: usize = 0;
        while i < data.fields.len()
            invariant
                i <= data.fields@.len(),
                data_wf(*data),
                row@.len() == i,
                forall|j: int|
                    0 <= j < i ==> #[trigger] row@[j].0@ == data.fields@[j].0@ && row@[j].1@
                        == cell_text(data.fields@[j].1),
            decreases data.fields@.len() - i,
        {
            let cell = data.fields[i].1.cell_string();
            row.push((data.fields[i].0.clone(), cell));
            i += 1;
        }
        proof {
            assert(crate::csv_writer::row_model(row) =~= data_cells(*data));
            assert forall|a: int, b: int|
                0 <= a < b < crate::csv_writer::row_model(row).len() implies (
            #[trigger] crate::csv_writer::row_model(row)[a]).0 != (
            #[trigger] crate::csv_writer::row_model(row)[b]).0 by {
                assert(data.fields@[a].0@ != data.fields@[b].0@);
            }
        }
        row
    }

    /// Appends the CSV row for one ingested sample to the pending records.
    fn write_to_csv(&mut self, key: &str, data: &TelemetryData)
        requires
            old(self).wf(),
            data_wf(*data),
        ensures
            final(self).wf(),
            final(self).streams == old(self).streams,
            final(self).recording == old(self).recording,
            final(self).csv_path == old(self).csv_path,
            final(self).max_buffer_size == old(self).max_buffer_size,
            final(self).pending@.len() == old(self).pending@.len() + 1,
            forall|j: int|
                0 <= j < old(self).pending@.len() ==> #[trigger] final(self).pending@[j] == old(
                    self,
                ).pending@[j],
            ({
                let rec = record_model(final(self).pending@.last());
                let all_keys = all_field_keys_model(old(self).streams@);
                &&& rec.len() == 2 + all_keys.len()
                &&& (rec[0] == rfc3339_of(data.timestamp as int) || rec[0] == dec_int(
                    data.timestamp as int,
                ))
                &&& (-100_000_000_000_000 <= data.timestamp <= 100_000_000_000_000 ==> rec[0]
                    == rfc3339_of(data.timestamp as int))
                &&& rec[1] == key@
                &&& rec.skip(2) == crate::csv_writer::project_row(all_keys, data_cells(*data))
            }),
    {
        let all_keys = self.get_all_field_keys();
        let ts_cell = match rfc3339_millis(data.timestamp) {
            Some(s) => s,
            None => i64_to_dec(data.timestamp),
        };
        let mut rec: Vec<String> = Vec::new();
        rec.push(ts_cell);
        rec.push(key.to_owned());
        let cells = Self::data_cells_exec(data);
        let mut tail = crate::csv_writer::project_record(&all_keys, &cells);
        let ghost tail_model = record_model(tail);
        rec.append(&mut tail);
        proof {
            assert(record_model(rec).skip(2) =~= tail_model);
        }
        self.pending.push(rec);
    }

    /// Appends a sample to the named stream, creating the stream on first
    /// use; while recording, also appends the sample's CSV row.
    pub fn set_telemetry(&mut self, key: String, data: TelemetryData) -> (r: Result<
        (),
        MiddlewareError,
    >)
        requires
            old(self).wf(),
            data_wf(data),
        ensures
            final(self).wf(),
            r is Ok,
            final(self).recording == old(self).recording,
            final(self).csv_path == old(self).csv_path,
            final(self).max_buffer_size == old(self).max_buffer_size,
            ({
                let pre = old(self).streams@;
                let post = final(self).streams@;
                if has_key(pre, key@) {
                    let i = key_index(pre, key@);
                    &&& post.len() == pre.len()
                    &&& forall|j: int| 0 <= j < pre.len() && j != i ==> post[j] == pre[j]
                    &&& post[i].0 == pre[i].0
                    &&& stream_keys(post[i].1) == add_keys(stream_keys(pre[i].1), data_keys(data))
                    &&& samples_model(post[i].1.data@) == ({
                        let appended = samples_model(pre[i].1.data@).push(data@);
                        if appended.len() > old(self).max_buffer_size {
                            appended.skip(1)
                        } else {
                            appended
                        }
                    })
                } else {
                    &&& post.len() == pre.len() + 1
                    &&& forall|j: int| 0 <= j < pre.len() ==> post[j] == pre[j]
                    &&& post.last().0@ == key@
                    &&& stream_keys(post.last().1) == add_keys(
                        Seq::<Seq<char>>::empty(),
                        data_keys(data),
                    )
                    &&& samples_model(post.last().1.data@) == (if old(self).max_buffer_size == 0 {
                        Seq::<DataModel>::empty()
                    } else {
                        seq![data@]
                    })
                }
            }),
            !old(self).recording ==> final(self).pending == old(self).pending,
            old(self).recording ==> ({
                let rec = record_model(final(self).pending@.last());
                let all_keys = all_field_keys_model(final(self).streams@);
                &&& final(self).pending@.len() == old(self).pending@.len() + 1
                &&& forall|j: int|
                    0 <= j < old(self).pending@.len() ==> #[trigger] final(self).pending@[j]
                        == old(self).pending@[j]
                &&& rec.len() == 2 + all_keys.len()
                &&& (rec[0] == rfc3339_of(data.timestamp as int) || rec[0] == dec_int(
                    data.timestamp as int,
                ))
                &&& (-100_000_000_000_000 <= data.timestamp <= 100_000_000_000_000 ==> rec[0]
                    == rfc3339_of(data.timestamp as int))
                &&& rec[1] == key@
                &&& rec.skip(2) == crate::csv_writer::project_row(all_keys, data_cells(data))
            }),
    {
        let ghost pre = self.streams@;
        match find_entry(&self.streams, key.as_str()) {
            Some(i) => {
                let mut entry = self.streams.remove(i);
                entry.1.add_data(data.clone(), self.max_buffer_size);
                self.streams.insert(i, entry);
                proof {
                    lemma_key_index_agrees(pre, key@, i as int);
                    assert(forall|j: int|
                        0 <= j < pre.len() && j != i ==> self.streams@[j] == pre[j]);
                    assert(forall|j: int|
                        0 <= j < pre.len() ==> (#[trigger] self.streams@[j]).0@ == pre[j].0@);
                    assert(self.wf());
                    assert(samples_model(self.streams@[i as int].1.data@) =~= ({
                        let appended = samples_model(pre[i as int].1.data@).push(data@);
                        if appended.len() > self.max_buffer_size {
                            appended.skip(1)
                        } else {
                            appended
                        }
                    }));
                }
            },
            None => {
                let mut stream = TelemetryStream::new();
                let ghost stream0 = stream;
                stream.add_data(data.clone(), self.max_buffer_size);
                self.streams.push((key.clone(), stream));
                proof {
                    assert(forall|j: int| 0 <= j < pre.len() ==> (#[trigger] pre[j]).0@ != key@);
                    assert(self.wf());
                    assert(stream_keys(stream0) =~= Seq::<Seq<char>>::empty());
                    if self.max_buffer_size == 0 {
                        assert(samples_model(self.streams@.last().1.data@) =~= Seq::<
                            DataModel,
                        >::empty());
                    } else {
                        assert(samples_model(self.streams@.last().1.data@) =~= seq![data@]);
                    }
                }
            },
        }
        if self.recording {
            self.write_to_csv(key.as_str(), &data);
        }
        Ok(())
    }

    /// The last `n` samples of a stream (all of them when `count` is
    /// `None`), empty when the stream does not exist.
    pub fn get_telemetry(&self, key: &str, count: Option<usize>) -> (r: Vec<TelemetryData>)
        requires
            self.wf(),
        ensures
            samples_model(r@) == (if has_key(self.streams@, key@) {
                let d = samples_model(value_at(self.streams@, key@).data@);
                match count {
                    Some(n) => d.skip(
                        if n < d.len() {
                            d.len() - n
                        } else {
                            0
                        },
                    ),
                    None => d,
                }
            } else {
                Seq::<DataModel>::empty()
            }),
    {
        match find_entry(&self.streams, key) {
            Some(i) => {
                proof {
                    lemma_key_index_agrees(self.streams@, key@, i as int);
                }
                let r = match count {
                    Some(n) => self.streams[i].1.get_last_n(n),
                    None => self.streams[i].1.get_all(),
                };
                r
            },
            None => {
                let r: Vec<TelemetryData> = Vec::new();
                proof {
                    assert(samples_model(r@) =~= Seq::<DataModel>::empty());
                }
                r
            },
        }
    }

    /// The stream names, in creation order.
    pub fn get_all_keys(&self) -> (r: Vec<String>)
        ensures
            r@.len() == self.streams@.len(),
            forall|i: int| 0 <= i < r@.len() ==> #[trigger] r@[i]@ == self.streams@[i].0@,
    {
        entry_names(&self.streams)
    }

    /// The most recent sample of a stream, if the stream exists and has one.
    pub fn get_latest(&self, key: &str) -> (r: Option<TelemetryData>)
        requires
            self.wf(),
        ensures
            r is Some <==> has_key(self.streams@, key@) && value_at(
                self.streams@,
                key@,
            ).data@.len() > 0,
            r matches Some(d) ==> d@ == samples_model(value_at(self.streams@, key@).data@).last(),
    {
        match find_entry(&self.streams, key) {
            Some(i) => {
                proof {
                    lemma_key_index_agrees(self.streams@, key@, i as int);
                }
                let stream = &self.streams[i].1;
                if stream.data.len() == 0 {
                    None
                } else {
                    Some(stream.data[stream.data.len() - 1].clone())
                }
            },
            None => None,
        }
    }

    /// The field names a stream has ever seen, empty when the stream does
    /// not exist.
    pub fn get_field_keys(&self, key: &str) -> (r: Vec<String>)
        requires
            self.wf(),
        ensures
            Seq::new(r@.len(), |i: int| r@[i]@) == (if has_key(self.streams@, key@) {
                stream_keys(value_at(self.streams@, key@))
            } else {
                Seq::<Seq<char>>::empty()
            }),
    {
        match find_entry(&self.streams, key) {
            Some(i) => {
                proof {
                    lemma_key_index_agrees(self.streams@, key@, i as int);
                }
                entry_names_from(&self.streams[i].1.field_keys)
            },
            None => {
                let r: Vec<String> = Vec::new();
                proof {
                    assert(Seq::new(r@.len(), |i: int| r@[i]@) =~= Seq::<Seq<char>>::empty());
                }
                r
            },
        }
    }

    /// Starts the unified recording bound to `file_path`, emitting the
    /// frozen header `timestamp, stream_key, <all field keys>`.
    pub fn start_recording(&mut self, file_path: String) -> (r: Result<(), MiddlewareError>)
        requires
            old(self).wf(),
        ensures
            final(self).wf(),
            old(self).recording <==> r is Err,
            r matches Err(e) ==> e == MiddlewareError::AlreadyRecording && *final(self) == *old(
                self,
            ),
            r is Ok ==> ({
                let hdr = record_model(final(self).pending@.last());
                &&& final(self).recording
                &&& (final(self).csv_path matches Some(p) && p == file_path)
                &&& final(self).streams == old(self).streams
                &&& final(self).max_buffer_size == old(self).max_buffer_size
                &&& final(self).pending@.len() == old(self).pending@.len() + 1
                &&& forall|j: int|
                    0 <= j < old(self).pending@.len() ==> #[trigger] final(self).pending@[j]
                        == old(self).pending@[j]
                &&& hdr.len() == 2 + all_field_keys_model(old(self).streams@).len()
                &&& hdr[0] == "timestamp"@
                &&& hdr[1] == "stream_key"@
                &&& hdr.skip(2) == all_field_keys_model(old(self).streams@)
            }),
    {
        if self.recording {
            return Err(MiddlewareError::AlreadyRecording);
        }
        let mut hdr: Vec<String> = Vec::new();
        hdr.push("timestamp".to_owned());
        hdr.push("stream_key".to_owned());
        let mut keys = self.get_all_field_keys();
        let ghost keys_model = Seq::new(keys@.len(), |i: int| keys@[i]@);
        hdr.append(&mut keys);
        proof {
            assert(record_model(hdr).skip(2) =~= keys_model);
        }
        self.pending.push(hdr);
        self.csv_path = Some(file_path);
        self.recording = true;
        Ok(())
    }

    /// Stops the unified recording and reports the CSV path; the path stays
    /// queryable afterwards.
    pub fn stop_recording(&mut self) -> (r: Result<String, MiddlewareError>)
        requires
            old(self).wf(),
        ensures
            final(self).wf(),
            old(self).recording <==> r is Ok,
            r matches Err(e) ==> e == MiddlewareError::NotRecording && *final(self) == *old(self),
            r matches Ok(p) ==> ({
                &&& !final(self).recording
                &&& (old(self).csv_path matches Some(q) && p@ == q@)
                &&& final(self).csv_path == old(self).csv_path
                &&& final(self).streams == old(self).streams
                &&& final(self).pending == old(self).pending
                &&& final(self).max_buffer_size == old(self).max_buffer_size
            }),
    {
        if !self.recording {
            return Err(MiddlewareError::NotRecording);
        }
        self.recording = false;
        match &self.csv_path {
            Some(p) => Ok(p.clone()),
            None => {
                proof {
                    assert(false);
                }
                Err(MiddlewareError::NotFound)
            },
        }
    }

    /// Whether the unified recording is active.
    pub fn is_recording(&self) -> (r: bool)
        ensures
            r == self.recording,
    {
        self.recording
    }

    /// The CSV path of the current (or last) recording.
    pub fn get_csv_path(&self) -> (r: Option<String>)
        ensures
            r is Some <==> self.csv_path is Some,
            r matches Some(p) ==> (self.csv_path matches Some(q) && p@ == q@),
    {
        match &self.csv_path {
            Some(p) => Some(p.clone()),
            None => None,
        }
    }

    /// Discards the samples of one stream; its remembered field names stay.
    pub fn clear_key(&mut self, key: &str)
        requires
            old(self).wf(),
        ensures
            final(self).wf(),
            final(self).recording == old(self).recording,
            final(self).csv_path == old(self).csv_path,
            final(self).pending == old(self).pending,
            final(self).max_buffer_size == old(self).max_buffer_size,
            ({
                let pre = old(self).streams@;
                let post = final(self).streams@;
                if has_key(pre, key@) {
                    let i = key_index(pre, key@);
                    &&& post.len() == pre.len()
                    &&& forall|j: int| 0 <= j < pre.len() && j != i ==> post[j] == pre[j]
                    &&& post[i].0 == pre[i].0
                    &&& post[i].1.data@.len() == 0
                    &&& post[i].1.field_keys == pre[i].1.field_keys
                } else {
                    post == pre
                }
            }),
    {
        let ghost pre = self.streams@;
        match find_entry(&self.streams, key) {
            Some(i) => {
                let mut entry = self.streams.remove(i);
                entry.1.clear();
                self.streams.insert(i, entry);
                proof {
                    lemma_key_index_agrees(pre, key@, i as int);
                    assert(forall|j: int|
                        0 <= j < pre.len() && j != i ==> self.streams@[j] == pre[j]);
                    assert(forall|j: int|
                        0 <= j < pre.len() ==> (#[trigger] self.streams@[j]).0@ == pre[j].0@);
                }
            },
            None => {},
        }
    }

    /// Discards every stream.
    pub fn clear_all(&mut self)
        requires
            old(self).wf(),
        ensures
            final(self).wf(),
            final(self).streams@.len() == 0,
            final(self).recording == old(self).recording,
            final(self).csv_path == old(self).csv_path,
            final(self).pending == old(self).pending,
            final(self).max_buffer_size == old(self).max_buffer_size,
    {
        self.streams.clear();
    }

    /// The sample count of one stream, zero when it does not exist.
    pub fn get_count(&self, key: &str) -> (r: usize)
        requires
            self.wf(),
        ensures
            r == (if has_key(self.streams@, key@) {
                value_at(self.streams@, key@).data@.len()
            } else {
                0
            }),
    {
        match find_entry(&self.streams, key) {
            Some(i) => {
                proof {
                    lemma_key_index_agrees(self.streams@, key@, i as int);
                }
                self.streams[i].1.data.len()
            },
            None => 0,
        }
    }

    /// The total sample count across streams, saturating at `usize::MAX`.
    pub fn get_total_count(&self) -> (r: usize)
        requires
            self.wf(),
        ensures
            r == (if total_count_model(self.streams@) <= usize::MAX {
                total_count_model(self.streams@)
            } else {
                usize::MAX as int
            }),
    {
        let ghost m = self.streams@;
        let mut total: usize = 0;
        let mut i: usize = 0;
        while i < self.streams.len()
            invariant
                i <= m.len(),
                m == self.streams@,
                total == (if total_count_model(m.take(i as int)) <= usize::MAX {
                    total_count_model(m.take(i as int))
                } else {
                    usize::MAX as int
                }),
            decreases m.len() - i,
        {
            proof {
                assert(m.take(i as int + 1).drop_last() =~= m.take(i as int));
                assert(m.take(i as int + 1).last() == m[i as int]);
                lemma_total_count_nonneg(m.take(i as int));
            }
            let n = self.streams[i].1.data.len();
            if n <= usize::MAX - total {
                total = total + n;
            } else {
                total = usize::MAX;
            }
            i += 1;
        }
        proof {
            assert(m.take(m.len() as int) =~= m);
        }
        total
    }

    /// Acknowledges a header-change check; the header stays frozen for the
    /// life of the recording, so fields first seen after the recording
    /// started do not join the file.
    pub fn update_csv_header_if_needed(&self) -> (r: Result<(), MiddlewareError>)
        ensures
            r is Ok,
    {
        Ok(())
    }

    /// Hands every pending CSV record to the caller, oldest first; the
    /// file-writing layer appends them to the recording's file.
    pub fn take_pending(&mut self) -> (out: Vec<Vec<String>>)
        requires
            old(self).wf(),
        ensures
            final(self).wf(),
            out == old(self).pending,
            final(self).pending@.len() == 0,
            final(self).streams == old(self).streams,
            final(self).recording == old(self).recording,
            final(self).csv_path == old(self).csv_path,
            final(self).max_buffer_size == old(self).max_buffer_size,
    {
        let mut out: Vec<Vec<String>> = Vec::new();
        core::mem::swap(&mut out, &mut self.pending);
        out
    }
}

/// The total sample count is never negative.
proof fn lemma_total_count_nonneg(streams: Seq<(String, TelemetryStream)>)
    ensures
        total_count_model(streams) >= 0,
    decreases streams.len(),
{
    if streams.len() > 0 {
        lemma_total_count_nonneg(streams.drop_last());
    }
}

/// Copies a name vector.
fn entry_names_from(names: &Vec<String>) -> (r: Vec<String>)
    ensures
        r@.len() == names@.len(),
        forall|i: int| 0 <= i < r@.len() ==> #[trigger] r@[i]@ == names@[i]@,
{
    let mut out: Vec<String> = Vec::new();
    let mut i: usize = 0;
    while i < names.len()
        invariant
            i <= names@.len(),
            out@.len() == i,
            forall|j: int| 0 <= j < i ==> #[trigger] out@[j]@ == names@[j]@,
        decreases names@.len() - i,
    {
        out.push(names[i].clone());
        i += 1;
    }
    out
}

impl Default for TelemetryStore {
    fn default() -> (r: Self)
        ensures
            r.wf(),
            r.streams@.len() == 0,
            !r.recording,
    {
        Self::new()
    }
}

} // verus!
