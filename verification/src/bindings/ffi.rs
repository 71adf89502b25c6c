//! The C ABI's ownership and error boundary, as values: owned byte buffers handed to C,
//! the validity of byte spans C hands in, and the status an operation reports.
use vstd::prelude::*;

verus! {

/// Bytes owned by the library and lent to C until it frees them.
pub struct EsBuffer {
    bytes: Vec<u8>,
}

impl View for EsBuffer {
    type V = Seq<u8>;

    closed spec fn view(&self) -> Seq<u8> {
        self.bytes@
    }
}

impl EsBuffer {
    /// A buffer owning `bytes`.
    pub fn new(bytes: Vec<u8>) -> (b: Self)
        ensures
            b@ == bytes@,
    {
        EsBuffer { bytes }
    }

    /// The buffer's bytes.
    pub fn data(&self) -> (r: &[u8])
        ensures
            r@ == self@,
    {
        self.bytes.as_slice()
    }

    /// The number of bytes.
    pub fn len(&self) -> (n: usize)
        ensures
            n == self@.len(),
    {
        self.bytes.len()
    }
}

/// Whether C may hand in the byte span at `data` (null or not) of `len` bytes: an empty
/// span is always accepted; another needs a pointer and a length within `isize::MAX`.
pub open spec fn span_ok(null: bool, len: usize) -> bool {
    len == 0 || (!null && len <= isize::MAX)
}

pub fn check_span(null: bool, len: usize) -> (r: Result<(), String>)
    ensures
        r is Ok <==> span_ok(null, len),
        r matches Err(e) ==> e@ == "invalid byte span"@,
{
    if len == 0 {
        return Ok(());
    }
    if null || len > isize::MAX as usize {
        return Err("invalid byte span".to_owned());
    }
    Ok(())
}

/// How an operation behind the C ABI ended.
pub enum Outcome {
    /// It succeeded.
    Done,
    /// It failed with this message.
    Failed(String),
    /// It panicked.
    Panicked,
}

/// The status code and error message the C caller receives: 0 and none on success, 1 and
/// the message on failure, 2 and a fixed message on a panic.
pub fn status(outcome: Outcome) -> (r: (i32, Option<String>))
    ensures
        match outcome {
            Outcome::Done => r.0 == 0 && r.1 is None,
            Outcome::Failed(m) => r.0 == 1 && (r.1 matches Some(e) && e@ == m@),
            Outcome::Panicked => r.0 == 2 && (r.1 matches Some(e) && e@
                == "Rust panic in FFI operation"@),
        },
{
    match outcome {
        Outcome::Done => (0, None),
        Outcome::Failed(m) => (1, Some(m)),
        Outcome::Panicked => (2, Some("Rust panic in FFI operation".to_owned())),
    }
}

} // verus!
