use vstd::prelude::*;

verus! {

/// The shape or size problem that made an input unusable.
#[derive(Clone, Copy, Debug, PartialEq, Eq, Structural)]
pub enum InputError {
    /// Fewer than three color planes were supplied.
    MissingPlanes,
    /// Planes (or an image and its pixel buffer) disagree in size.
    SizeMismatch,
    /// The image is smaller than the region that has to be cut from it.
    ImageTooSmall,
    /// A histogram is empty or does not have the expected number of bins.
    HistogramShape,
}

/// Every way a processing step can fail.
#[derive(Clone, Debug)]
pub enum ProcessError {
    /// A helper process could not be started.
    CommandSpawn(String),
    /// Reading data from a helper process failed.
    IO(String),
    /// The image library reported an error, with its message.
    Image(String),
    /// The input did not have the required shape or size.
    Input(InputError),
}

impl ProcessError {
    /// The error reported for a failure of the image library with `message`.
    pub fn from_image_message(message: String) -> (r: ProcessError)
        ensures
            r == ProcessError::Image(message),
    {
        ProcessError::Image(message)
    }

    /// Whether this error is the input error `kind`.
    pub fn is_input(&self, kind: InputError) -> (r: bool)
        ensures
            r == (*self == ProcessError::Input(kind)),
    {
        match self {
            ProcessError::Input(k) => *k == kind,
            _ => false,
        }
    }
}

} // verus!
