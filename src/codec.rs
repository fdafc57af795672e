//! The bytes of a persisted partition: its label list and its vector list,
//! as bincode's default configuration writes the pair.
use vstd::prelude::*;

verus! {

#[verifier::external_type_specification]
#[verifier::external_body]
pub struct ExBincodeErrorKind(bincode::ErrorKind);

/// Labels as character sequences.
pub open spec fn labels_view(labels: Seq<String>) -> Seq<Seq<char>> {
    labels.map_values(|s: String| s@)
}

/// Vectors as sequences of component bit patterns.
pub open spec fn vectors_view(vectors: Seq<Vec<u32>>) -> Seq<Seq<u32>> {
    vectors.map_values(|v: Vec<u32>| v@)
}

/// The bytes that bincode writes for the pair (labels, vectors).
pub uninterp spec fn bincode_of(labels: Seq<Seq<char>>, vectors: Seq<Seq<u32>>) -> Seq<u8>;

/// The pair (labels, vectors) that bincode reads from `bytes`, if it reads one.
pub uninterp spec fn bincode_decoded(bytes: Seq<u8>) -> Option<(Seq<Seq<char>>, Seq<Seq<u32>>)>;

/// Relies on bincode::serialize (default configuration): the bytes are a
/// function of the pair alone. It succeeds on this pair: the default size
/// limit is unbounded, a `Vec` always gives its length, and writing into a
/// `Vec<u8>` does not fail.
#[verifier::external_body]
pub(crate) fn encode_pair(labels: &Vec<String>, vectors: &Vec<Vec<u32>>) -> (r: Result<
    Vec<u8>,
    bincode::Error,
>)
    ensures
        r is Ok,
        r is Ok ==> r->Ok_0@ == bincode_of(labels_view(labels@), vectors_view(vectors@)),
{
    bincode::serialize(&(labels, vectors))
}

/// Relies on bincode::deserialize (default configuration): the outcome is a
/// function of the bytes alone, and bytes that bincode::serialize wrote for a
/// pair read back as that pair.
#[verifier::external_body]
pub(crate) fn decode_pair(bytes: &Vec<u8>) -> (r: Result<
    (Vec<String>, Vec<Vec<u32>>),
    bincode::Error,
>)
    ensures
        r is Ok <==> bincode_decoded(bytes@) is Some,
        r is Ok ==> bincode_decoded(bytes@) == Some(
            (labels_view(r->Ok_0.0@), vectors_view(r->Ok_0.1@)),
        ),
        forall|l: Seq<Seq<char>>, v: Seq<Seq<u32>>|
            bytes@ == #[trigger] bincode_of(l, v) ==> r is Ok && labels_view(r->Ok_0.0@) == l
                && vectors_view(r->Ok_0.1@) == v,
{
    bincode::deserialize(bytes)
}

} // verus!
