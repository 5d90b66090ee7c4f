//! Timestamps around one upload and one download, for the throughput
//! report.  Wall-clock time enters as explicit millisecond counts.

use vstd::prelude::*;

verus! {

/// The abstract state of the monitor.
#[verifier::ext_equal]
pub ghost struct MonitorModel {
    pub file_size: u64,
    pub upload_start: Option<u64>,
    pub upload_end: Option<u64>,
    pub download_start: Option<u64>,
    pub download_end: Option<u64>,
}

/// Records when the upload and the download of one file started and
/// ended.
pub struct PerformanceMonitor {
    file_size: u64,
    upload_start: Option<u64>,
    upload_end: Option<u64>,
    download_start: Option<u64>,
    download_end: Option<u64>,
}

impl View for PerformanceMonitor {
    type V = MonitorModel;

    closed spec fn view(&self) -> MonitorModel {
        MonitorModel {
            file_size: self.file_size,
            upload_start: self.upload_start,
            upload_end: self.upload_end,
            download_start: self.download_start,
            download_end: self.download_end,
        }
    }
}

impl PerformanceMonitor {
    /// A monitor for a file of `file_size` bytes with no marks yet.
    pub fn new(file_size: u64) -> (r: Self)
        ensures
            r@ == (MonitorModel {
                file_size,
                upload_start: None,
                upload_end: None,
                download_start: None,
                download_end: None,
            }),
    {
        PerformanceMonitor {
            file_size,
            upload_start: None,
            upload_end: None,
            download_start: None,
            download_end: None,
        }
    }

    /// Mark the start of the upload.
    pub fn start_upload(&mut self, now_ms: u64)
        ensures
            final(self)@ == (MonitorModel { upload_start: Some(now_ms), ..old(self)@ }),
    {
        self.upload_start = Some(now_ms);
    }

    /// Mark the end of the upload.
    pub fn end_upload(&mut self, now_ms: u64)
        ensures
            final(self)@ == (MonitorModel { upload_end: Some(now_ms), ..old(self)@ }),
    {
        self.upload_end = Some(now_ms);
    }

    /// Mark the start of the download.
    pub fn start_download(&mut self, now_ms: u64)
        ensures
            final(self)@ == (MonitorModel { download_start: Some(now_ms), ..old(self)@ }),
    {
        self.download_start = Some(now_ms);
    }

    /// Mark the end of the download.
    pub fn end_download(&mut self, now_ms: u64)
        ensures
            final(self)@ == (MonitorModel { download_end: Some(now_ms), ..old(self)@ }),
    {
        self.download_end = Some(now_ms);
    }

    /// The size of the file being moved.
    pub fn get_file_size(&self) -> (r: u64)
        ensures
            r == self@.file_size,
    {
        self.file_size
    }

    /// How long the upload took: end minus start, `None` unless both
    /// marks are set in order.
    pub fn upload_duration_ms(&self) -> (r: Option<u64>)
        ensures
            r == (match (self@.upload_start, self@.upload_end) {
                (Some(s), Some(e)) => if s <= e {
                    Some((e - s) as u64)
                } else {
                    None
                },
                _ => None,
            }),
    {
        match (self.upload_start, self.upload_end) {
            (Some(s), Some(e)) => if s <= e {
                Some(e - s)
            } else {
                None
            },
            _ => None,
        }
    }

    /// How long the download took: end minus start, `None` unless both
    /// marks are set in order.
    pub fn download_duration_ms(&self) -> (r: Option<u64>)
        ensures
            r == (match (self@.download_start, self@.download_end) {
                (Some(s), Some(e)) => if s <= e {
                    Some((e - s) as u64)
                } else {
                    None
                },
                _ => None,
            }),
    {
        match (self.download_start, self.download_end) {
            (Some(s), Some(e)) => if s <= e {
                Some(e - s)
            } else {
                None
            },
            _ => None,
        }
    }
}

} // verus!
