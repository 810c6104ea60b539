//! The download benchmark: where to download from and where to put
//! the result, as plain parsed values.  The network transfer itself
//! is performed by the surrounding application.

use vstd::prelude::*;

verus! {

/// The download benchmark's configuration.
pub struct DownloadOperations {
    pub url: String,
    pub output: String,
}

impl DownloadOperations {
    pub fn new(url: String, output: String) -> (r: DownloadOperations)
        ensures
            r.url == url,
            r.output == output,
    {
        DownloadOperations { url, output }
    }
}

impl Default for DownloadOperations {
    /// The configuration written when none exists yet.
    fn default() -> (r: DownloadOperations)
        ensures
            r.url@ == "https://testing.taxi/wp-content/uploads/2023/06/compressed-txt-100M.zip"@,
            r.output@ == "downloaded_file.zip"@,
    {
        DownloadOperations {
            url: "https://testing.taxi/wp-content/uploads/2023/06/compressed-txt-100M.zip"
                .to_owned(),
            output: "downloaded_file.zip".to_owned(),
        }
    }
}

} // verus!
