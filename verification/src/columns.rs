use crate::fastq::FastqEntry;
use vstd::prelude::*;

verus! {

/// The records of one source file accumulated as columns, one per attribute,
/// ready to become a columnar Table: consolidation works on whole Tables, so
/// the builder never keeps row objects around.
pub struct FragmentColumns {
    accession: Vec<Option<String>>,
    file_of_origin: Vec<Option<String>>,
    runid: Vec<Option<String>>,
    read: Vec<Option<u32>>,
    ch: Vec<Option<u32>>,
    start_time: Vec<Option<String>>,
    flow_cell_id: Vec<Option<String>>,
    protocol_group_id: Vec<Option<String>>,
    sample_id: Vec<Option<String>>,
    parent_read_id: Vec<Option<String>>,
    basecall_model_version_id: Vec<Option<String>>,
}

impl FragmentColumns {
    /// All columns hold one value per accumulated record.
    pub closed spec fn well_formed(self) -> bool {
        &&& self.file_of_origin@.len() == self.accession@.len()
        &&& self.runid@.len() == self.accession@.len()
        &&& self.read@.len() == self.accession@.len()
        &&& self.ch@.len() == self.accession@.len()
        &&& self.start_time@.len() == self.accession@.len()
        &&& self.flow_cell_id@.len() == self.accession@.len()
        &&& self.protocol_group_id@.len() == self.accession@.len()
        &&& self.sample_id@.len() == self.accession@.len()
        &&& self.parent_read_id@.len() == self.accession@.len()
        &&& self.basecall_model_version_id@.len() == self.accession@.len()
    }

    /// How many records have been accumulated.
    pub closed spec fn spec_len(self) -> nat {
        self.accession@.len()
    }

    /// The record whose attributes sit at row `i` of every column.
    pub closed spec fn record_at(self, i: int) -> FastqEntry {
        FastqEntry {
            accession: self.accession@[i],
            file_of_origin: self.file_of_origin@[i],
            runid: self.runid@[i],
            read: self.read@[i],
            ch: self.ch@[i],
            start_time: self.start_time@[i],
            flow_cell_id: self.flow_cell_id@[i],
            protocol_group_id: self.protocol_group_id@[i],
            sample_id: self.sample_id@[i],
            parent_read_id: self.parent_read_id@[i],
            basecall_model_version_id: self.basecall_model_version_id@[i],
        }
    }

    /// Empty columns.
    pub fn new() -> (r: FragmentColumns)
        ensures
            r.well_formed(),
            r.spec_len() == 0,
    {
        FragmentColumns {
            accession: Vec::new(),
            file_of_origin: Vec::new(),
            runid: Vec::new(),
            read: Vec::new(),
            ch: Vec::new(),
            start_time: Vec::new(),
            flow_cell_id: Vec::new(),
            protocol_group_id: Vec::new(),
            sample_id: Vec::new(),
            parent_read_id: Vec::new(),
            basecall_model_version_id: Vec::new(),
        }
    }

    /// How many records have been accumulated.
    pub fn len(&self) -> (r: usize)
        ensures
            r == self.spec_len(),
    {
        self.accession.len()
    }

    /// Appends one record: each attribute goes to the end of its own column,
    /// and every earlier row stays as it was.
    pub fn push_record(&mut self, e: FastqEntry)
        requires
            old(self).well_formed(),
            old(self).spec_len() < usize::MAX,
        ensures
            final(self).well_formed(),
            final(self).spec_len() == old(self).spec_len() + 1,
            forall|i: int| 0 <= i < old(self).spec_len() ==> final(self).record_at(i) == old(
                self,
            ).record_at(i),
            final(self).record_at(old(self).spec_len() as int) == e,
    {
        let FastqEntry {
            accession,
            file_of_origin,
            runid,
            read,
            ch,
            start_time,
            flow_cell_id,
            protocol_group_id,
            sample_id,
            parent_read_id,
            basecall_model_version_id,
        } = e;
        self.accession.push(accession);
        self.file_of_origin.push(file_of_origin);
        self.runid.push(runid);
        self.read.push(read);
        self.ch.push(ch);
        self.start_time.push(start_time);
        self.flow_cell_id.push(flow_cell_id);
        self.protocol_group_id.push(protocol_group_id);
        self.sample_id.push(sample_id);
        self.parent_read_id.push(parent_read_id);
        self.basecall_model_version_id.push(basecall_model_version_id);
    }

    /// The accession column.
    pub fn accessions(&self) -> (r: &Vec<Option<String>>)
        requires
            self.well_formed(),
        ensures
            r@.len() == self.spec_len(),
            forall|i: int| 0 <= i < self.spec_len() ==> r@[i] == self.record_at(i).accession,
    {
        &self.accession
    }

    /// The origin-file column.
    pub fn files_of_origin(&self) -> (r: &Vec<Option<String>>)
        requires
            self.well_formed(),
        ensures
            r@.len() == self.spec_len(),
            forall|i: int|
                0 <= i < self.spec_len() ==> r@[i] == self.record_at(i).file_of_origin,
    {
        &self.file_of_origin
    }

    /// The run-id column.
    pub fn runids(&self) -> (r: &Vec<Option<String>>)
        requires
            self.well_formed(),
        ensures
            r@.len() == self.spec_len(),
            forall|i: int| 0 <= i < self.spec_len() ==> r@[i] == self.record_at(i).runid,
    {
        &self.runid
    }

    /// The read-number column.
    pub fn reads(&self) -> (r: &Vec<Option<u32>>)
        requires
            self.well_formed(),
        ensures
            r@.len() == self.spec_len(),
            forall|i: int| 0 <= i < self.spec_len() ==> r@[i] == self.record_at(i).read,
    {
        &self.read
    }

    /// The channel column.
    pub fn chs(&self) -> (r: &Vec<Option<u32>>)
        requires
            self.well_formed(),
        ensures
            r@.len() == self.spec_len(),
            forall|i: int| 0 <= i < self.spec_len() ==> r@[i] == self.record_at(i).ch,
    {
        &self.ch
    }

    /// The start-time column.
    pub fn start_times(&self) -> (r: &Vec<Option<String>>)
        requires
            self.well_formed(),
        ensures
            r@.len() == self.spec_len(),
            forall|i: int| 0 <= i < self.spec_len() ==> r@[i] == self.record_at(i).start_time,
    {
        &self.start_time
    }

    /// The flow-cell-id column.
    pub fn flow_cell_ids(&self) -> (r: &Vec<Option<String>>)
        requires
            self.well_formed(),
        ensures
            r@.len() == self.spec_len(),
            forall|i: int| 0 <= i < self.spec_len() ==> r@[i] == self.record_at(i).flow_cell_id,
    {
        &self.flow_cell_id
    }

    /// The protocol-group-id column.
    pub fn protocol_group_ids(&self) -> (r: &Vec<Option<String>>)
        requires
            self.well_formed(),
        ensures
            r@.len() == self.spec_len(),
            forall|i: int|
                0 <= i < self.spec_len() ==> r@[i] == self.record_at(i).protocol_group_id,
    {
        &self.protocol_group_id
    }

    /// The sample-id column.
    pub fn sample_ids(&self) -> (r: &Vec<Option<String>>)
        requires
            self.well_formed(),
        ensures
            r@.len() == self.spec_len(),
            forall|i: int| 0 <= i < self.spec_len() ==> r@[i] == self.record_at(i).sample_id,
    {
        &self.sample_id
    }

    /// The parent-read-id column.
    pub fn parent_read_ids(&self) -> (r: &Vec<Option<String>>)
        requires
            self.well_formed(),
        ensures
            r@.len() == self.spec_len(),
            forall|i: int|
                0 <= i < self.spec_len() ==> r@[i] == self.record_at(i).parent_read_id,
    {
        &self.parent_read_id
    }

    /// The basecall-model-version-id column.
    pub fn basecall_model_version_ids(&self) -> (r: &Vec<Option<String>>)
        requires
            self.well_formed(),
        ensures
            r@.len() == self.spec_len(),
            forall|i: int|
                0 <= i < self.spec_len() ==> r@[i] == self.record_at(i).basecall_model_version_id,
    {
        &self.basecall_model_version_id
    }
}

} // verus!
