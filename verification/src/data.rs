//! The snapshot that the signal path publishes for the visualization: the
//! selected algorithm and the smoothed drive, as they were when the last
//! block ended.

use crate::algorithms::DistortionAlgorithm;
use crate::fixed::ONE;
use vstd::prelude::*;

verus! {

/// What the visualization reads. The two fields are written one after the
/// other; a reader may see one of them new and the other old.
#[derive(Clone, Copy, PartialEq, Eq, Structural, Debug)]
pub struct UIData {
    pub algorithm: DistortionAlgorithm,
    pub drive: i64,
}

impl Default for UIData {
    /// The snapshot before the first block: the first algorithm and a drive
    /// of 1.0.
    fn default() -> (data: UIData)
        ensures
            data == (UIData { algorithm: DistortionAlgorithm::SoftClip, drive: ONE }),
    {
        UIData { algorithm: DistortionAlgorithm::SoftClip, drive: ONE }
    }
}

impl UIData {
    /// The algorithm of the snapshot.
    pub fn get_algorithm(&self) -> (algorithm: DistortionAlgorithm)
        ensures
            algorithm == self.algorithm,
    {
        self.algorithm
    }

    /// The drive of the snapshot.
    pub fn get_drive(&self) -> (drive: i64)
        ensures
            drive == self.drive,
    {
        self.drive
    }

    /// Writes the algorithm and leaves the drive.
    pub fn set_algorithm(&mut self, algorithm: DistortionAlgorithm)
        ensures
            *final(self) == (UIData { algorithm: algorithm, drive: old(self).drive }),
    {
        self.algorithm = algorithm;
    }

    /// Writes the drive and leaves the algorithm.
    pub fn set_drive(&mut self, drive: i64)
        ensures
            *final(self) == (UIData { algorithm: old(self).algorithm, drive: drive }),
    {
        self.drive = drive;
    }
}

} // verus!
