//! Classification of foundry-output metadata payloads.
//!
//! A foundry output may carry a metadata feature holding an arbitrary byte
//! payload. The payload is decoded as UTF-8 and then matched against two
//! competing JSON schemas: IRC27 (NFT-style asset metadata) and IRC30
//! (fungible-token metadata), IRC27 taking priority. A node's worth of
//! classifications is reduced to per-variant counts.

use vstd::prelude::*;

verus! {

use core::str::Utf8Error;
use iota_sdk::types::block::output::feature::Irc27Metadata;
use iota_sdk::types::block::output::feature::Irc30Metadata;
use vstd::slice::slice_to_vec;

#[verifier::external_type_specification]
#[verifier::external_body]
pub struct ExIrc27Metadata(Irc27Metadata);

#[verifier::external_type_specification]
#[verifier::external_body]
pub struct ExIrc30Metadata(Irc30Metadata);

#[verifier::external_type_specification]
#[verifier::external_body]
pub struct ExJsonError(serde_json::Error);

#[verifier::external_type_specification]
#[verifier::external_body]
pub struct ExUtf8Error(Utf8Error);

/// Whether a byte sequence is valid UTF-8.
pub uninterp spec fn utf8_ok(b: Seq<u8>) -> bool;

/// The text that a valid UTF-8 byte sequence decodes to.
pub uninterp spec fn utf8_text(b: Seq<u8>) -> Seq<char>;

/// Whether a text deserializes as the IRC27 schema.
pub uninterp spec fn irc27_accepts(s: Seq<char>) -> bool;

/// Whether a text deserializes as the IRC30 schema.
pub uninterp spec fn irc30_accepts(s: Seq<char>) -> bool;

/// Relies on str::from_utf8: whether the bytes are valid UTF-8, and the text
/// they decode to, depend on the bytes alone. The empty sequence is valid
/// UTF-8, and a decoded text never has more characters than the input has
/// bytes (each character takes at least one byte).
#[verifier::external_body]
fn decode_utf8(raw: &[u8]) -> (r: Result<&str, Utf8Error>)
    ensures
        r is Ok <==> utf8_ok(raw@),
        r matches Ok(s) ==> s@ == utf8_text(raw@),
        r matches Ok(s) ==> s@.len() <= raw@.len(),
        raw@.len() == 0 ==> r is Ok,
{
    core::str::from_utf8(raw)
}

/// Relies on serde_json::from_str deserializing Irc27Metadata: acceptance
/// depends on the text alone, and the empty text is rejected (a JSON
/// document needs at least one value).
#[verifier::external_body]
fn parse_irc27(s: &str) -> (r: Result<Irc27Metadata, serde_json::Error>)
    ensures
        r is Ok <==> irc27_accepts(s@),
        s@.len() == 0 ==> r is Err,
{
    serde_json::from_str(s)
}

/// Relies on serde_json::from_str deserializing Irc30Metadata: acceptance
/// depends on the text alone, and the empty text is rejected (a JSON
/// document needs at least one value).
#[verifier::external_body]
fn parse_irc30(s: &str) -> (r: Result<Irc30Metadata, serde_json::Error>)
    ensures
        r is Ok <==> irc30_accepts(s@),
        s@.len() == 0 ==> r is Err,
{
    serde_json::from_str(s)
}

/// The classification variant, without its payload.
#[derive(PartialEq, Eq, Structural)]
pub enum MetadataKind {
    Absent,
    Irc27,
    Irc30,
    DeserializationError,
    Utf8Error,
}

/// The variant that classifying a metadata payload `b` yields: invalid UTF-8
/// is an encoding failure; otherwise IRC27 is tried first, then IRC30; a text
/// that matches neither is a deserialization failure.
pub open spec fn classify_kind(b: Seq<u8>) -> MetadataKind {
    if !utf8_ok(b) {
        MetadataKind::Utf8Error
    } else if irc27_accepts(utf8_text(b)) {
        MetadataKind::Irc27
    } else if irc30_accepts(utf8_text(b)) {
        MetadataKind::Irc30
    } else {
        MetadataKind::DeserializationError
    }
}

/// The classification cases, spelled out: a payload that is not valid UTF-8
/// is always an encoding failure, never a schema match; a text that the
/// IRC27 schema accepts is classified IRC27 whether or not IRC30 would also
/// accept it; a text that fails IRC27 but passes IRC30 is classified IRC30;
/// and a text that fails both is a deserialization failure.
pub proof fn lemma_classify_cases(b: Seq<u8>)
    ensures
        !utf8_ok(b) ==> classify_kind(b) == MetadataKind::Utf8Error,
        utf8_ok(b) && irc27_accepts(utf8_text(b)) ==> classify_kind(b) == MetadataKind::Irc27,
        utf8_ok(b) && !irc27_accepts(utf8_text(b)) && irc30_accepts(utf8_text(b))
            ==> classify_kind(b) == MetadataKind::Irc30,
        utf8_ok(b) && !irc27_accepts(utf8_text(b)) && !irc30_accepts(utf8_text(b))
            ==> classify_kind(b) == MetadataKind::DeserializationError,
{
}

/// The classification of one foundry output's metadata.
#[derive(Debug)]
pub enum FoundryMetadata {
    /// The output carries no metadata feature.
    Absent,
    /// The payload parses as IRC27 asset metadata.
    Irc27(Irc27Metadata),
    /// The payload fails IRC27 but parses as IRC30 token metadata.
    Irc30(Irc30Metadata),
    /// The payload is text but matches neither schema; the text and both
    /// parse errors are kept for diagnostics.
    DeserializationError { text: String, irc27: serde_json::Error, irc30: serde_json::Error },
    /// The payload is not valid UTF-8; the raw bytes and the decode error
    /// are kept for diagnostics.
    Utf8Error(Vec<u8>, Utf8Error),
}

impl FoundryMetadata {
    /// The variant of this classification.
    pub open spec fn kind(self) -> MetadataKind {
        match self {
            FoundryMetadata::Absent => MetadataKind::Absent,
            FoundryMetadata::Irc27(_) => MetadataKind::Irc27,
            FoundryMetadata::Irc30(_) => MetadataKind::Irc30,
            FoundryMetadata::DeserializationError { .. } => MetadataKind::DeserializationError,
            FoundryMetadata::Utf8Error(..) => MetadataKind::Utf8Error,
        }
    }

    /// Classifies a raw metadata payload. The variant is a function of the
    /// bytes alone; an encoding failure keeps the raw bytes, a double parse
    /// failure keeps the decoded text.
    pub fn from_bytes(raw: &[u8]) -> (r: FoundryMetadata)
        ensures
            r.kind() == classify_kind(raw@),
            r matches FoundryMetadata::Utf8Error(b, _) ==> b@ == raw@,
            r matches FoundryMetadata::DeserializationError { text, .. } ==> text@ == utf8_text(
                raw@,
            ),
            raw@.len() == 0 ==> (r matches FoundryMetadata::DeserializationError { text, .. }
                && text@.len() == 0),
    {
        match decode_utf8(raw) {
            Ok(text) => match parse_irc27(text) {
                Ok(parsed) => FoundryMetadata::Irc27(parsed),
                Err(irc27_err) => match parse_irc30(text) {
                    Ok(parsed) => FoundryMetadata::Irc30(parsed),
                    Err(irc30_err) => FoundryMetadata::DeserializationError {
                        text: text.to_owned(),
                        irc27: irc27_err,
                        irc30: irc30_err,
                    },
                },
            },
            Err(e) => FoundryMetadata::Utf8Error(slice_to_vec(raw), e),
        }
    }
}

/// One feature of a foundry output, reduced to what classification reads: a
/// metadata feature carries its raw byte payload, every other feature kind is
/// opaque.
pub enum FoundryFeature {
    Metadata(Vec<u8>),
    Other,
}

/// A foundry output, reduced to its immutable feature list in source order.
pub struct Foundry {
    pub immutable_features: Vec<FoundryFeature>,
}

/// Whether a feature list holds at least one metadata feature.
pub open spec fn contains_metadata(feats: Seq<FoundryFeature>) -> bool {
    exists|i: int| 0 <= i < feats.len() && feats[i] is Metadata
}

/// The payload of the first metadata feature in the list, if any.
pub open spec fn first_metadata(feats: Seq<FoundryFeature>) -> Option<Seq<u8>>
    decreases feats.len(),
{
    if feats.len() == 0 {
        None
    } else {
        match feats[0] {
            FoundryFeature::Metadata(d) => Some(d@),
            FoundryFeature::Other => first_metadata(feats.drop_first()),
        }
    }
}

/// A feature list has a first metadata payload exactly when it contains a
/// metadata feature at all.
pub proof fn lemma_first_metadata_some_iff_contains(feats: Seq<FoundryFeature>)
    ensures
        first_metadata(feats) is Some <==> contains_metadata(feats),
    decreases feats.len(),
{
    if feats.len() > 0 {
        match feats[0] {
            FoundryFeature::Metadata(_) => {
                assert(contains_metadata(feats));
            },
            FoundryFeature::Other => {
                lemma_first_metadata_some_iff_contains(feats.drop_first());
                if contains_metadata(feats.drop_first()) {
                    let i = choose|i: int|
                        0 <= i < feats.drop_first().len() && feats.drop_first()[i] is Metadata;
                    assert(feats[i + 1] is Metadata);
                }
                if contains_metadata(feats) {
                    let i = choose|i: int| 0 <= i < feats.len() && feats[i] is Metadata;
                    assert(feats.drop_first()[i - 1] is Metadata);
                }
            },
        }
    }
}

/// If everything before position `i` is not a metadata feature and the
/// feature at `i` is one, its payload is the first metadata payload.
proof fn lemma_first_metadata_at(feats: Seq<FoundryFeature>, i: int)
    requires
        0 <= i < feats.len(),
        forall|j: int| 0 <= j < i ==> !(#[trigger] feats[j] is Metadata),
        feats[i] is Metadata,
    ensures
        first_metadata(feats) == Some((feats[i]->0)@),
    decreases i,
{
    if i > 0 {
        lemma_first_metadata_at(feats.drop_first(), i - 1);
    }
}

impl Foundry {
    /// Returns the payload of the first metadata feature on this output,
    /// or `None` exactly when no feature is a metadata feature.
    pub fn metadata(&self) -> (r: Option<&Vec<u8>>)
        ensures
            r is Some <==> contains_metadata(self.immutable_features@),
            r matches Some(d) ==> first_metadata(self.immutable_features@) == Some(d@),
    {
        let feats = &self.immutable_features;
        let n = feats.len();
        for i in 0..n
            invariant
                n == feats@.len(),
                feats == &self.immutable_features,
                forall|j: int| 0 <= j < i ==> !(#[trigger] feats@[j] is Metadata),
        {
            match &feats[i] {
                FoundryFeature::Metadata(d) => {
                    proof {
                        lemma_first_metadata_at(feats@, i as int);
                    }
                    return Some(d);
                },
                FoundryFeature::Other => {},
            }
        }
        proof {
            lemma_first_metadata_some_iff_contains(self.immutable_features@);
        }
        None
    }
}

/// The classification variant that one foundry output yields: the variant of
/// its first metadata payload, or `Absent` when it has none.
pub open spec fn foundry_kind(feats: Seq<FoundryFeature>) -> MetadataKind {
    match first_metadata(feats) {
        Some(b) => classify_kind(b),
        None => MetadataKind::Absent,
    }
}

impl FoundryMetadata {
    /// Classifies one foundry output: its first metadata payload decides the
    /// variant, and an output without a metadata feature is `Absent`.
    pub fn from_foundry(f: &Foundry) -> (r: FoundryMetadata)
        ensures
            r.kind() == foundry_kind(f.immutable_features@),
            r matches FoundryMetadata::Utf8Error(b, _) ==> first_metadata(f.immutable_features@)
                == Some(b@),
            r matches FoundryMetadata::DeserializationError { text, .. } ==> (first_metadata(
                f.immutable_features@,
            ) matches Some(b) && text@ == utf8_text(b)),
    {
        match f.metadata() {
            Some(d) => FoundryMetadata::from_bytes(d.as_slice()),
            None => {
                proof {
                    lemma_first_metadata_some_iff_contains(f.immutable_features@);
                }
                FoundryMetadata::Absent
            },
        }
    }
}

/// How many classifications in the sequence fall under variant `k`.
pub open spec fn count_kind(s: Seq<FoundryMetadata>, k: MetadataKind) -> nat
    decreases s.len(),
{
    if s.len() == 0 {
        0
    } else {
        count_kind(s.drop_last(), k) + (if s.last().kind() == k {
            1nat
        } else {
            0nat
        })
    }
}

/// A variant's count never exceeds the sequence's length.
proof fn lemma_count_kind_le_len(s: Seq<FoundryMetadata>, k: MetadataKind)
    ensures
        count_kind(s, k) <= s.len(),
    decreases s.len(),
{
    if s.len() > 0 {
        lemma_count_kind_le_len(s.drop_last(), k);
    }
}

/// Per-variant counts over one node's foundry outputs.
#[derive(Debug)]
pub struct FoundriesStats {
    pub node_url: String,

    pub number: usize,

    pub with_meta: usize,
    pub without_meta: usize,

    pub irc27: usize,
    pub irc30: usize,

    pub broken_utf8: usize,
    pub deserialization_error: usize,
}

/// One node's address and the classification of every foundry output it
/// returned, in source order.
#[derive(Debug)]
pub struct NodeData {
    pub node_url: String,

    pub foundries: Vec<FoundryMetadata>,
}

impl NodeData {
    /// Classifies every foundry output of one node, keeping source order.
    pub fn from_foundries(node_url: String, outputs: &Vec<Foundry>) -> (r: NodeData)
        ensures
            r.node_url == node_url,
            r.foundries@.len() == outputs@.len(),
            forall|i: int|
                0 <= i < outputs@.len() ==> (#[trigger] r.foundries@[i]).kind() == foundry_kind(
                    outputs@[i].immutable_features@,
                ),
            forall|i: int|
                0 <= i < outputs@.len() ==> ((#[trigger] r.foundries@[i]) matches
                    FoundryMetadata::Utf8Error(b, _) ==> first_metadata(
                    outputs@[i].immutable_features@,
                ) == Some(b@)),
            forall|i: int|
                0 <= i < outputs@.len() ==> ((#[trigger] r.foundries@[i]) matches
                    FoundryMetadata::DeserializationError { text, .. } ==> (first_metadata(
                    outputs@[i].immutable_features@,
                ) matches Some(b) && text@ == utf8_text(b))),
    {
        let mut foundries: Vec<FoundryMetadata> = Vec::new();
        let n = outputs.len();
        for i in 0..n
            invariant
                n == outputs@.len(),
                foundries@.len() == i,
                forall|j: int|
                    0 <= j < i ==> (#[trigger] foundries@[j]).kind() == foundry_kind(
                        outputs@[j].immutable_features@,
                    ),
                forall|j: int|
                    0 <= j < i ==> ((#[trigger] foundries@[j]) matches FoundryMetadata::Utf8Error(
                        b,
                        _,
                    ) ==> first_metadata(outputs@[j].immutable_features@) == Some(b@)),
                forall|j: int|
                    0 <= j < i ==> ((#[trigger] foundries@[j]) matches
                        FoundryMetadata::DeserializationError { text, .. } ==> (first_metadata(
                        outputs@[j].immutable_features@,
                    ) matches Some(b) && text@ == utf8_text(b))),
        {
            foundries.push(FoundryMetadata::from_foundry(&outputs[i]));
        }
        NodeData { node_url, foundries }
    }

    /// Reduces the classification sequence to its per-variant counts. The
    /// with-metadata and without-metadata counts partition the total.
    pub fn stats(&self) -> (r: FoundriesStats)
        ensures
            r.node_url@ == self.node_url@,
            r.number == self.foundries@.len(),
            r.without_meta == count_kind(self.foundries@, MetadataKind::Absent),
            r.with_meta + r.without_meta == r.number,
            r.irc27 == count_kind(self.foundries@, MetadataKind::Irc27),
            r.irc30 == count_kind(self.foundries@, MetadataKind::Irc30),
            r.broken_utf8 == count_kind(self.foundries@, MetadataKind::Utf8Error),
            r.deserialization_error == count_kind(
                self.foundries@,
                MetadataKind::DeserializationError,
            ),
    {
        let number = self.foundries.len();

        let mut without_meta: usize = 0;
        let mut irc27: usize = 0;
        let mut irc30: usize = 0;
        let mut broken_utf8: usize = 0;
        let mut deserialization_error: usize = 0;

        for i in 0..number
            invariant
                number == self.foundries@.len(),
                without_meta == count_kind(self.foundries@.take(i as int), MetadataKind::Absent),
                irc27 == count_kind(self.foundries@.take(i as int), MetadataKind::Irc27),
                irc30 == count_kind(self.foundries@.take(i as int), MetadataKind::Irc30),
                broken_utf8 == count_kind(self.foundries@.take(i as int), MetadataKind::Utf8Error),
                deserialization_error == count_kind(
                    self.foundries@.take(i as int),
                    MetadataKind::DeserializationError,
                ),
        {
            proof {
                assert(self.foundries@.take(i + 1).drop_last() =~= self.foundries@.take(i as int));
                assert(self.foundries@.take(i + 1).last() == self.foundries@[i as int]);
                lemma_count_kind_le_len(self.foundries@.take(i as int), MetadataKind::Absent);
                lemma_count_kind_le_len(self.foundries@.take(i as int), MetadataKind::Irc27);
                lemma_count_kind_le_len(self.foundries@.take(i as int), MetadataKind::Irc30);
                lemma_count_kind_le_len(self.foundries@.take(i as int), MetadataKind::Utf8Error);
                lemma_count_kind_le_len(
                    self.foundries@.take(i as int),
                    MetadataKind::DeserializationError,
                );
            }
            match &self.foundries[i] {
                FoundryMetadata::Absent => {
                    without_meta = without_meta + 1;
                },
                FoundryMetadata::Irc27(_) => {
                    irc27 = irc27 + 1;
                },
                FoundryMetadata::Irc30(_) => {
                    irc30 = irc30 + 1;
                },
                FoundryMetadata::DeserializationError { .. } => {
                    deserialization_error = deserialization_error + 1;
                },
                FoundryMetadata::Utf8Error(..) => {
                    broken_utf8 = broken_utf8 + 1;
                },
            }
        }

        proof {
            assert(self.foundries@.take(number as int) =~= self.foundries@);
            lemma_count_kind_le_len(self.foundries@, MetadataKind::Absent);
        }
        let with_meta = number - without_meta;

        FoundriesStats {
            node_url: self.node_url.clone(),
            number,
            with_meta,
            without_meta,
            irc27,
            irc30,
            broken_utf8,
            deserialization_error,
        }
    }
}

} // verus!
