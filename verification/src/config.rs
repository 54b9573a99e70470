//! The settings of one run.

use crate::utils::{decimal, decimal_string, MIB};
use vstd::prelude::*;
use vstd::string::*;

verus! {

/// What a run is told: how to scan, and how to name what it recovers.
/// Nothing in it changes while the run lasts.
#[derive(Clone, Debug)]
pub struct Config {
    /// Distance in bytes between the offsets that are probed for a file.
    pub block_size: u64,
    /// Largest box, in bytes, that is taken for a box.
    pub max_chunk_size: u64,
    /// What the name of every output file begins with.
    pub base: String,
    /// Directory that the output files go to.
    pub directory: Option<String>,
    /// Number in the name of the first output file.
    pub index: usize,
    /// Scan and count, but write nothing.
    pub dry_run: bool,
    /// Show how far the scan has come.
    pub progress: bool,
}

impl Config {
    /// A scan needs blocks of at least one byte to get anywhere.
    pub open spec fn wf(&self) -> bool {
        self.block_size > 0
    }

    /// The name of output file number `ordinal`, counted from zero: the base
    /// name, the starting index plus `ordinal`, and `.mov`, all of it behind
    /// the directory and a slash where there is a directory.
    pub open spec fn spec_output_name(&self, ordinal: nat) -> Seq<char> {
        let file = self.base@ + decimal(self.index as nat + ordinal) + ".mov"@;
        match self.directory {
            Some(directory) => directory@ + "/"@ + file,
            None => file,
        }
    }

    /// The name of output file number `ordinal`, counted from zero.
    pub fn output_name(&self, ordinal: u64) -> (name: String)
        ensures
            name@ == self.spec_output_name(ordinal as nat),
    {
        let number = decimal_string(self.index as u128 + ordinal as u128);
        let file = self.base.clone().concat(number.as_str()).concat(".mov");
        match &self.directory {
            Some(directory) => {
                let name = directory.clone().concat("/").concat(file.as_str());
                name
            },
            None => file,
        }
    }
}

impl Default for Config {
    /// Blocks of 512 bytes, boxes of up to 100 MiB, files `video_1.mov`,
    /// `video_2.mov` and so on in the current directory.
    fn default() -> (config: Config)
        ensures
            config.wf(),
            config.block_size == 512,
            config.max_chunk_size == 100 * MIB,
            config.base@ == "video_"@,
            config.directory is None,
            config.index == 1,
            !config.dry_run,
            !config.progress,
    {
        Config {
            block_size: 512,
            max_chunk_size: 100 * MIB,
            base: String::from_str("video_"),
            directory: None,
            index: 1,
            dry_run: false,
            progress: false,
        }
    }
}

} // verus!
