//! Which background results the window still wants. Every image request and every
//! directory scan carries a generation number; a result whose generation is no longer
//! current belongs to a request that was superseded and is dropped.

use vstd::prelude::*;

verus! {

/// The generation after `generation`, wrapping around.
pub open spec fn next_generation(generation: u64) -> u64 {
    if generation == u64::MAX {
        0
    } else {
        (generation + 1) as u64
    }
}

/// The current generations of the image being opened and of the directory listing, and
/// whether the directory of the opened image has been scanned yet.
#[derive(Clone, Copy, Debug, PartialEq, Eq, Structural)]
pub struct LoadGenerations {
    pub image: u64,
    pub directory: u64,
    pub directory_scan_started: bool,
}

fn advance(generation: u64) -> (r: u64)
    ensures
        r == next_generation(generation),
{
    if generation == u64::MAX {
        0
    } else {
        generation + 1
    }
}

impl LoadGenerations {
    /// The state at start-up: the image given on the command line is the first request,
    /// and no directory has been scanned.
    pub fn new() -> (r: Self)
        ensures
            r == (LoadGenerations { image: 1, directory: 0, directory_scan_started: false }),
    {
        LoadGenerations { image: 1, directory: 0, directory_scan_started: false }
    }

    /// Starts a new image request and returns its generation.
    pub fn next_image_request(&mut self) -> (r: u64)
        ensures
            r == next_generation(old(self).image),
            *final(self) == (LoadGenerations { image: r, ..*old(self) }),
    {
        self.image = advance(self.image);
        self.image
    }

    /// Whether a decoded image of `generation` answers the current request.
    pub fn is_current_image(&self, generation: u64) -> (r: bool)
        ensures
            r == (generation == self.image),
    {
        generation == self.image
    }

    /// Whether a directory listing or a preview of `generation` belongs to the current
    /// listing.
    pub fn is_current_directory(&self, generation: u64) -> (r: bool)
        ensures
            r == (generation == self.directory),
    {
        generation == self.directory
    }

    /// After an image was shown: the generation of the directory scan to start, the first
    /// time only.
    pub fn image_shown(&mut self) -> (r: Option<u64>)
        ensures
            old(self).directory_scan_started ==> r is None && *final(self) == *old(self),
            !old(self).directory_scan_started ==> {
                &&& r == Some(next_generation(old(self).directory))
                &&& *final(self) == (LoadGenerations {
                    directory: next_generation(old(self).directory),
                    directory_scan_started: true,
                    ..*old(self)
                })
            },
    {
        if self.directory_scan_started {
            return None;
        }
        self.directory = advance(self.directory);
        self.directory_scan_started = true;
        Some(self.directory)
    }

    /// After the shown image was deleted: results still on their way for the old image and
    /// the old listing are dropped.
    pub fn image_deleted(&mut self)
        ensures
            *final(self) == (LoadGenerations {
                image: next_generation(old(self).image),
                directory: next_generation(old(self).directory),
                ..*old(self)
            }),
    {
        self.image = advance(self.image);
        self.directory = advance(self.directory);
    }
}

/// A result of a superseded request is dropped: once a new request or a deletion has
/// moved a generation on, results carrying the previous generation are not current.
pub proof fn superseded_results_are_dropped(state: LoadGenerations)
    ensures
        next_generation(state.image) != state.image,
        next_generation(state.directory) != state.directory,
{
}

} // verus!
