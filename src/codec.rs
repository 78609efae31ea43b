use vstd::prelude::*;

verus! {

/// The one way a value can fail to bind: it is longer than its bound.
#[derive(Clone, Copy, Debug, PartialEq, Eq, Structural)]
pub enum CodecError {
    TooLong,
}

/// A byte string whose length was checked against `max_len` when it was built.
///
/// The only constructor is [`bind`], so every value of this type satisfies
/// its bound.
#[derive(Debug)]
pub struct BoundedValue {
    bytes: Vec<u8>,
    max_len: u32,
}

impl View for BoundedValue {
    type V = Seq<u8>;

    closed spec fn view(&self) -> Seq<u8> {
        self.bytes@
    }
}

impl BoundedValue {
    /// The bound this value was checked against.
    pub closed spec fn bound(&self) -> nat {
        self.max_len as nat
    }

    #[verifier::type_invariant]
    closed spec fn within_bound(&self) -> bool {
        self.bytes@.len() <= self.max_len
    }

    /// The bytes of the value.
    pub fn as_bytes(&self) -> (r: &[u8])
        ensures
            r@ == self@,
    {
        self.bytes.as_slice()
    }

    /// The number of bytes in the value, which never exceeds its bound.
    pub fn len(&self) -> (r: usize)
        ensures
            r == self@.len(),
            r <= self.bound(),
    {
        proof { use_type_invariant(self); }
        self.bytes.len()
    }

    /// The bound this value was checked against.
    pub fn max_len(&self) -> (r: u32)
        ensures
            r == self.bound(),
    {
        self.max_len
    }

    /// A second value with the same bytes and the same bound.
    pub fn duplicate(&self) -> (r: BoundedValue)
        ensures
            r@ == self@,
            r.bound() == self.bound(),
    {
        proof { use_type_invariant(self); }
        BoundedValue { bytes: copy_bytes(self.bytes.as_slice()), max_len: self.max_len }
    }
}

/// A fresh vector holding the bytes of `raw`.
pub(crate) fn copy_bytes(raw: &[u8]) -> (r: Vec<u8>)
    ensures
        r@ == raw@,
{
    let mut out: Vec<u8> = Vec::with_capacity(raw.len());
    let mut i: usize = 0;
    while i < raw.len()
        invariant
            i <= raw@.len(),
            out@ == raw@.take(i as int),
        decreases raw@.len() - i,
    {
        out.push(raw[i]);
        i += 1;
        assert(out@ =~= raw@.take(i as int));
    }
    assert(out@ =~= raw@);
    out
}

/// Binds `raw` to the bound `max_len`: the value holds exactly the bytes of
/// `raw`, and binding fails with `TooLong` if and only if `raw` is longer than
/// `max_len`.
pub fn bind(raw: &[u8], max_len: u32) -> (r: Result<BoundedValue, CodecError>)
    ensures
        raw@.len() > max_len ==> r == Err::<BoundedValue, CodecError>(CodecError::TooLong),
        raw@.len() <= max_len ==> (r matches Ok(v) && v@ == raw@ && v.bound() == max_len),
{
    if raw.len() as u64 > max_len as u64 {
        Err(CodecError::TooLong)
    } else {
        Ok(BoundedValue { bytes: copy_bytes(raw), max_len })
    }
}

/// Whether two byte strings are equal.
pub fn bytes_equal(a: &[u8], b: &[u8]) -> (r: bool)
    ensures
        r == (a@ == b@),
{
    if a.len() != b.len() {
        return false;
    }
    let mut i: usize = 0;
    while i < a.len()
        invariant
            i <= a@.len(),
            a@.len() == b@.len(),
            a@.take(i as int) == b@.take(i as int),
        decreases a@.len() - i,
    {
        if a[i] != b[i] {
            assert(a@[i as int] != b@[i as int]);
            return false;
        }
        assert(a@.take(i + 1) =~= a@.take(i as int).push(a@[i as int]));
        assert(b@.take(i + 1) =~= b@.take(i as int).push(b@[i as int]));
        i += 1;
    }
    assert(a@ =~= a@.take(i as int));
    assert(b@ =~= b@.take(i as int));
    true
}

} // verus!
