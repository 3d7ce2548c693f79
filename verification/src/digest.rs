//! SHA-256 of an input file that is read piece by piece.

use crate::error::ToolError;
use crate::text::concat3;
use sha2::Digest;
use vstd::prelude::*;
use vstd::string::*;

verus! {

/// `sha2::Sha256`, a hasher that takes bytes in and gives their digest.
#[verifier::external_type_specification]
#[verifier::external_body]
pub struct ExSha256(sha2::Sha256);

/// The bytes that a hasher has taken in, in order.
pub uninterp spec fn absorbed(hasher: sha2::Sha256) -> Seq<u8>;

/// The SHA-256 digest of a byte sequence.
pub uninterp spec fn sha256(data: Seq<u8>) -> Seq<u8>;

/// The number of bytes from which on the length in bits does not fit the 64-bit field that
/// ends a hashed message.
pub const MAX_INPUT: u64 = 0x2000_0000_0000_0000;

/// Calls `sha2::Digest::new` for `sha2::Sha256`: a hasher that has taken in nothing.
#[verifier::external_body]
fn hasher_new() -> (hasher: sha2::Sha256)
    ensures
        absorbed(hasher) == Seq::<u8>::empty(),
{
    sha2::Sha256::new()
}

/// Calls `sha2::Digest::update`: the hasher takes in `data` after what it holds. Beyond
/// `MAX_INPUT` bytes its length count may overflow, so that is left out.
#[verifier::external_body]
fn hasher_update(hasher: &mut sha2::Sha256, data: &[u8])
    requires
        absorbed(*old(hasher)).len() + data@.len() < MAX_INPUT,
    ensures
        absorbed(*final(hasher)) == absorbed(*old(hasher)) + data@,
{
    hasher.update(data);
}

/// Calls `sha2::Digest::finalize`: the digest of what the hasher has taken in, however it
/// was cut into pieces. Beyond `MAX_INPUT` bytes its length count may overflow, so that is
/// left out.
#[verifier::external_body]
fn hasher_finalize(hasher: sha2::Sha256) -> (hash: [u8; 32])
    requires
        absorbed(hasher).len() < MAX_INPUT,
    ensures
        hash@ == sha256(absorbed(hasher)),
{
    hasher.finalize().into()
}

/// Hashes an input file as its pieces are read.
pub struct InputHasher {
    hasher: sha2::Sha256,
    taken: u64,
}

impl View for InputHasher {
    type V = Seq<u8>;

    closed spec fn view(&self) -> Seq<u8> {
        absorbed(self.hasher)
    }
}

impl InputHasher {
    #[verifier::type_invariant]
    spec fn inv(self) -> bool {
        self.taken == absorbed(self.hasher).len() && self.taken < MAX_INPUT
    }

    /// Starts with nothing read.
    pub fn new() -> (r: InputHasher)
        ensures
            r@ == Seq::<u8>::empty(),
    {
        InputHasher { hasher: hasher_new(), taken: 0 }
    }

    /// How many bytes were taken in.
    pub fn taken(&self) -> (r: u64)
        ensures
            r == self@.len(),
            r < MAX_INPUT,
    {
        proof {
            use_type_invariant(self);
        }
        self.taken
    }

    /// Takes in the next piece, and says whether more is to be read: an empty piece is the end
    /// of the file.
    pub fn absorb(self, piece: &[u8]) -> (r: (InputHasher, bool))
        requires
            self@.len() + piece@.len() < MAX_INPUT,
        ensures
            r.0@ == self@ + piece@,
            r.1 == (piece@.len() > 0),
    {
        proof {
            use_type_invariant(&self);
        }
        let count = piece.len();
        if count == 0 {
            assert(self@ + piece@ =~= self@);
            return (self, false);
        }
        let mut hasher = self.hasher;
        hasher_update(&mut hasher, piece);
        (InputHasher { hasher, taken: self.taken + count as u64 }, true)
    }

    /// The SHA-256 of everything that was taken in.
    pub fn finish(self) -> (hash: [u8; 32])
        ensures
            hash@ == sha256(self@),
    {
        proof {
            use_type_invariant(&self);
        }
        hasher_finalize(self.hasher)
    }
}

/// How reading an input file for its hash went.
pub enum InputRead {
    /// It could not be opened, for the reason given.
    Unopened(String),
    /// A read failed, for the reason given.
    Failed(String),
    /// It was read to the end, and all of it was taken in.
    Complete(InputHasher),
}

/// The SHA-256 of the input file at `path`, or why there is none.
pub fn sha256_file(path: &str, read: InputRead) -> (r: Result<[u8; 32], ToolError>)
    ensures
        match read {
            InputRead::Unopened(reason) => r is Err && r->Err_0@ == ToolError::OpenFailed(
                "failed to read input for SHA-256 verification ("@ + path@ + "): "@ + reason@,
            ),
            InputRead::Failed(reason) => r is Err && r->Err_0@ == ToolError::OpenFailed(
                "failed while hashing input ("@ + path@ + "): "@ + reason@,
            ),
            InputRead::Complete(hasher) => r is Ok && r->Ok_0@ == sha256(hasher@),
        },
{
    match read {
        InputRead::Unopened(reason) => {
            let mut message = concat3(
                "failed to read input for SHA-256 verification (",
                path,
                "): ",
            );
            message.append(reason.as_str());
            Err(ToolError::OpenFailed(message))
        },
        InputRead::Failed(reason) => {
            let mut message = concat3("failed while hashing input (", path, "): ");
            message.append(reason.as_str());
            Err(ToolError::OpenFailed(message))
        },
        InputRead::Complete(hasher) => Ok(hasher.finish()),
    }
}

} // verus!
