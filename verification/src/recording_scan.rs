//! Reading the records of a `.scope` recording one at a time: gaps,
//! triggers and the index are decoded and kept, sample frames are handed
//! to the caller to decode, a cut-short tail ends the scan as recovered, and
//! the session end is accepted only with an index that matches the sample
//! records.

use vstd::prelude::*;

use crate::scope_format::{
    decode_gap, decode_index, decode_trigger_record, index_matches, read_record, spec_decode_gap,
    spec_decode_index, spec_decode_trigger, spec_read_record, validate_index_matches_records, LiveGap,
    RecordRead, RecordingFormatError, SampleRecordIndex, StoredIndexEntry, TriggerRecord, RECORD_GAP,
    RECORD_HEADER_LEN, RECORD_INDEX, RECORD_SAMPLE_FRAME, RECORD_SESSION_END, RECORD_TRIGGER,
};

verus! {

/// What one step of a scan found.
#[derive(Clone, Copy, Debug, PartialEq, Eq, Structural)]
pub enum ScanStep {
    /// A record was taken in; the scan goes on.
    Continue,
    /// A sample-frame record whose payload lies at
    /// `payload_start..payload_start + payload_len` of the bytes and at
    /// `payload_offset` of the file; the caller decodes it and adds its
    /// sample record.
    SampleFrame { payload_offset: u64, payload_start: usize, payload_len: usize, timestamp_ticks: u64 },
    /// The scan is over: a clean session end, the end of the bytes or a
    /// cut-short tail.
    Finished,
}

/// The state of a scan over the records of a recording.
pub struct RecordingScan {
    pub offset: usize,
    pub sample_records: Vec<SampleRecordIndex>,
    pub gaps: Vec<LiveGap>,
    pub triggers: Vec<TriggerRecord>,
    pub stored_index: Option<Vec<StoredIndexEntry>>,
    pub clean_end: bool,
    pub recovered_tail: bool,
    pub done: bool,
}

pub struct RecordingScanV {
    pub offset: int,
    pub sample_records: Seq<SampleRecordIndex>,
    pub gaps: Seq<LiveGap>,
    pub triggers: Seq<TriggerRecord>,
    pub stored_index: Option<Seq<StoredIndexEntry>>,
    pub clean_end: bool,
    pub recovered_tail: bool,
    pub done: bool,
}

impl View for RecordingScan {
    type V = RecordingScanV;

    open spec fn view(&self) -> RecordingScanV {
        RecordingScanV {
            offset: self.offset as int,
            sample_records: self.sample_records@,
            gaps: self.gaps@,
            triggers: self.triggers@,
            stored_index: match self.stored_index {
                Some(v) => Some(v@),
                None => None,
            },
            clean_end: self.clean_end,
            recovered_tail: self.recovered_tail,
            done: self.done,
        }
    }
}

/// One step of a scan over `b`: the record at the scan's offset, or why the
/// recording is refused (the state is then unchanged).
pub open spec fn spec_scan_next(s: RecordingScanV, b: Seq<u8>) -> (RecordingScanV, Result<ScanStep, RecordingFormatError>) {
    match spec_read_record(b, s.offset) {
        Err(e) => (s, Err(e)),
        Ok(RecordRead::End) => (RecordingScanV { recovered_tail: !s.clean_end, done: true, ..s }, Ok(ScanStep::Finished)),
        Ok(RecordRead::TruncatedTail) => (RecordingScanV { recovered_tail: true, done: true, ..s }, Ok(ScanStep::Finished)),
        Ok(RecordRead::Record { record_type, timestamp_ticks, payload_start, payload_len, next }) => {
            let payload = b.subrange(payload_start as int, payload_start + payload_len);
            let s1 = RecordingScanV { offset: next as int, ..s };
            if record_type == RECORD_SAMPLE_FRAME {
                (
                    s1,
                    Ok(
                        ScanStep::SampleFrame {
                            payload_offset: (s.offset + RECORD_HEADER_LEN) as u64,
                            payload_start,
                            payload_len,
                            timestamp_ticks,
                        },
                    ),
                )
            } else if record_type == RECORD_GAP {
                match spec_decode_gap(payload) {
                    Ok(g) => (RecordingScanV { gaps: s.gaps.push(g), ..s1 }, Ok(ScanStep::Continue)),
                    Err(e) => (s, Err(e)),
                }
            } else if record_type == RECORD_TRIGGER {
                match spec_decode_trigger(timestamp_ticks, payload) {
                    Ok(t) => (RecordingScanV { triggers: s.triggers.push(t), ..s1 }, Ok(ScanStep::Continue)),
                    Err(e) => (s, Err(e)),
                }
            } else if record_type == RECORD_INDEX {
                if s.stored_index is Some {
                    (s, Err(RecordingFormatError::DuplicateIndexRecord))
                } else {
                    match spec_decode_index(payload) {
                        Ok(ix) => (RecordingScanV { stored_index: Some(ix), ..s1 }, Ok(ScanStep::Continue)),
                        Err(e) => (s, Err(e)),
                    }
                }
            } else if record_type == RECORD_SESSION_END {
                if payload_len != 0 || timestamp_ticks != 0 {
                    (s, Err(RecordingFormatError::InvalidSessionEnd))
                } else {
                    match s.stored_index {
                        None => (s, Err(RecordingFormatError::MissingIndexRecord)),
                        Some(ix) => match index_matches(ix, s.sample_records) {
                            Err(e) => (s, Err(e)),
                            Ok(_) => (RecordingScanV { clean_end: true, done: true, ..s1 }, Ok(ScanStep::Finished)),
                        },
                    }
                }
            } else {
                (s1, Ok(ScanStep::Continue))
            }
        },
    }
}

proof fn lemma_record_bounds(b: Seq<u8>, o: int)
    requires
        0 <= o <= b.len() <= usize::MAX,
    ensures
        spec_read_record(b, o) matches Ok(RecordRead::Record { payload_start, payload_len, next, .. }) ==> payload_start == o + 20
            && payload_start + payload_len + 4 == next && next <= b.len(),
{
}

/// A scan that is under way has found neither a clean end nor a cut-short
/// tail; a finished scan has found exactly one of them.
pub open spec fn scan_wf(s: RecordingScanV) -> bool {
    &&& !s.done ==> !s.clean_end && !s.recovered_tail
    &&& s.done ==> (s.clean_end != s.recovered_tail)
}

impl RecordingScan {
    /// A scan whose first record starts at `offset`, after the file header
    /// and metadata.
    pub fn new(offset: usize) -> (r: Self)
        ensures
            r@ == (RecordingScanV {
                offset: offset as int,
                sample_records: Seq::empty(),
                gaps: Seq::empty(),
                triggers: Seq::empty(),
                stored_index: None,
                clean_end: false,
                recovered_tail: false,
                done: false,
            }),
            scan_wf(r@),
    {
        RecordingScan {
            offset,
            sample_records: Vec::new(),
            gaps: Vec::new(),
            triggers: Vec::new(),
            stored_index: None,
            clean_end: false,
            recovered_tail: false,
            done: false,
        }
    }

    /// Adds the sample record the caller decoded for a sample frame.
    pub fn add_sample_record(&mut self, record: SampleRecordIndex)
        requires
            scan_wf(old(self)@),
        ensures
            scan_wf(final(self)@),
            final(self)@ == (RecordingScanV { sample_records: old(self)@.sample_records.push(record), ..old(self)@ }),
    {
        self.sample_records.push(record);
    }

    /// Reads and takes in the record at the scan's offset.
    pub fn next_record(&mut self, bytes: &[u8]) -> (r: Result<ScanStep, RecordingFormatError>)
        requires
            old(self).offset <= bytes@.len(),
            !old(self).done,
            scan_wf(old(self)@),
        ensures
            (final(self)@, r) == spec_scan_next(old(self)@, bytes@),
            scan_wf(final(self)@),
            final(self).offset <= bytes@.len(),
    {
        let n = bytes.len();
        let read = read_record(bytes, self.offset);
        match read {
            Err(e) => Err(e),
            Ok(RecordRead::End) => {
                self.recovered_tail = !self.clean_end;
                self.done = true;
                Ok(ScanStep::Finished)
            },
            Ok(RecordRead::TruncatedTail) => {
                self.recovered_tail = true;
                self.done = true;
                Ok(ScanStep::Finished)
            },
            Ok(RecordRead::Record { record_type, timestamp_ticks, payload_start, payload_len, next }) => {
                proof {
                    lemma_record_bounds(bytes@, self.offset as int);
                }
                let payload = &bytes[payload_start..payload_start + payload_len];
                let ghost pl = bytes@.subrange(payload_start as int, payload_start + payload_len);
                assert(payload@ == pl);
                if record_type == RECORD_SAMPLE_FRAME {
                    let payload_offset = self.offset as u64 + RECORD_HEADER_LEN;
                    self.offset = next;
                    Ok(ScanStep::SampleFrame { payload_offset, payload_start, payload_len, timestamp_ticks })
                } else if record_type == RECORD_GAP {
                    let g = decode_gap(payload)?;
                    self.gaps.push(g);
                    self.offset = next;
                    Ok(ScanStep::Continue)
                } else if record_type == RECORD_TRIGGER {
                    let t = decode_trigger_record(timestamp_ticks, payload)?;
                    self.triggers.push(t);
                    self.offset = next;
                    Ok(ScanStep::Continue)
                } else if record_type == RECORD_INDEX {
                    if self.stored_index.is_some() {
                        return Err(RecordingFormatError::DuplicateIndexRecord);
                    }
                    let ix = decode_index(payload)?;
                    self.stored_index = Some(ix);
                    self.offset = next;
                    Ok(ScanStep::Continue)
                } else if record_type == RECORD_SESSION_END {
                    if payload_len != 0 || timestamp_ticks != 0 {
                        return Err(RecordingFormatError::InvalidSessionEnd);
                    }
                    match &self.stored_index {
                        None => Err(RecordingFormatError::MissingIndexRecord),
                        Some(ix) => {
                            validate_index_matches_records(ix.as_slice(), self.sample_records.as_slice())?;
                            self.clean_end = true;
                            self.done = true;
                            self.offset = next;
                            Ok(ScanStep::Finished)
                        },
                    }
                } else {
                    self.offset = next;
                    Ok(ScanStep::Continue)
                }
            },
        }
    }
}

} // verus!
