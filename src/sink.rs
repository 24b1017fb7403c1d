use vstd::prelude::*;
use vstd::utf8::encode_utf8;

verus! {

/// std's I/O error, carried through from a sink to the caller unchanged.
#[verifier::external_type_specification]
#[verifier::external_body]
pub struct ExIoError(std::io::Error);

/// Where a writer's bytes go. A sink accepts whole byte runs and can be
/// asked to flush whatever it buffers; either may fail with an I/O error.
///
/// A sink that is known never to fail says so through `never_fails`, and then
/// `contents` is everything it holds. A sink that says nothing promises
/// nothing.
pub trait Sink {
    /// Whether every write and flush on this sink succeeds.
    open spec fn never_fails(&self) -> bool {
        false
    }

    /// The bytes a never-failing sink holds.
    open spec fn contents(&self) -> Seq<u8> {
        Seq::empty()
    }

    /// Accepts all of `bytes`, or fails.
    fn write_bytes(&mut self, bytes: &[u8]) -> (r: Result<(), std::io::Error>)
        ensures
            final(self).never_fails() == old(self).never_fails(),
            old(self).never_fails() ==> r is Ok && final(self).never_fails()
                && final(self).contents() == old(self).contents() + bytes@,
    ;

    /// Pushes buffered bytes on to their destination.
    fn flush(&mut self) -> (r: Result<(), std::io::Error>)
        ensures
            final(self).never_fails() == old(self).never_fails(),
            old(self).never_fails() ==> r is Ok && final(self).never_fails()
                && final(self).contents() == old(self).contents(),
    ;
}

/// An in-memory sink: bytes are appended and nothing ever fails.
impl Sink for Vec<u8> {
    open spec fn never_fails(&self) -> bool {
        true
    }

    open spec fn contents(&self) -> Seq<u8> {
        self@
    }

    fn write_bytes(&mut self, bytes: &[u8]) -> (r: Result<(), std::io::Error>) {
        self.extend_from_slice(bytes);
        assert(self@ =~= old(self)@ + bytes@);
        Ok(())
    }

    fn flush(&mut self) -> (r: Result<(), std::io::Error>) {
        Ok(())
    }
}

/// Relies on `char::encode_utf8`: it writes the UTF-8 encoding of `c` (one to
/// four bytes) to the front of the buffer and returns that part of it.
#[verifier::external_body]
pub(crate) fn char_utf8(c: char) -> (r: ([u8; 4], usize))
    ensures
        r.1 <= 4,
        r.0@.subrange(0, r.1 as int) == encode_utf8(seq![c]),
{
    let mut buf = [0u8; 4];
    let n = c.encode_utf8(&mut buf).len();
    (buf, n)
}

} // verus!
