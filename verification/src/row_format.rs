//! Which encoding the stored rows of a collection have, and which encoder a row
//! is written back with.
//!
//! The encodings cannot be told apart by the bytes, so the collection's
//! configuration decides, once, for readers and writers alike.
use crate::error::{Error, ErrorView};
use crate::maps::{MapKey, VecMap};
use crate::transaction::chain::CollKey;
use vstd::prelude::*;
use vstd::string::*;

verus! {

/// How a collection stores its documents.
#[derive(Clone, Copy, Debug, PartialEq, Eq, Structural)]
pub enum StorageMode {
    Schemaless,
    /// By a schema, which is known here by its number.
    Strict { schema: u64 },
}

/// What decides on a collection's encoding.
#[derive(Clone, Copy, Debug, PartialEq, Eq, Structural)]
pub struct DocConfig {
    pub vector_primary: bool,
    pub storage_mode: StorageMode,
}

/// How stored rows are encoded.
#[derive(Clone, Copy, Debug, PartialEq, Eq, Structural)]
pub enum SparseBodyFormat {
    /// A document without a schema, in MessagePack.
    Document,
    /// A tuple by this schema.
    Strict { schema: u64 },
    /// The tagged metadata beside a vector.
    VectorSidecar,
}

/// The encoding that a configuration stands for. A collection whose vectors come
/// first has sidecars, whatever its storage mode; one that is not registered has
/// documents.
pub open spec fn format_of(config: Option<DocConfig>) -> SparseBodyFormat {
    match config {
        None => SparseBodyFormat::Document,
        Some(c) => if c.vector_primary {
            SparseBodyFormat::VectorSidecar
        } else {
            match c.storage_mode {
                StorageMode::Strict { schema } => SparseBodyFormat::Strict { schema },
                StorageMode::Schemaless => SparseBodyFormat::Document,
            }
        },
    }
}

pub open spec fn config_at(
    configs: Map<(u64, u64, Seq<char>), DocConfig>,
    place: (u64, u64, Seq<char>),
) -> Option<DocConfig> {
    if configs.contains_key(place) {
        Some(configs[place])
    } else {
        None
    }
}

/// The encoding of a collection's rows.
pub fn sparse_body_format(
    configs: &VecMap<CollKey, DocConfig>,
    database_id: u64,
    tenant_id: u64,
    collection: &str,
) -> (r: SparseBodyFormat)
    ensures
        r == format_of(config_at(configs@, (database_id, tenant_id, collection@))),
{
    match configs.get(&CollKey::at(database_id, tenant_id, collection)) {
        None => SparseBodyFormat::Document,
        Some(c) => {
            if c.vector_primary {
                SparseBodyFormat::VectorSidecar
            } else {
                match c.storage_mode {
                    StorageMode::Strict { schema } => SparseBodyFormat::Strict { schema },
                    StorageMode::Schemaless => SparseBodyFormat::Document,
                }
            }
        },
    }
}

/// What an encoder is asked for.
#[derive(Clone, Copy, Debug, PartialEq, Eq, Structural)]
pub enum Encoder {
    Document,
    Tuple { schema: u64 },
    Sidecar,
}

/// What an encoder answers: the bytes, its own error, or why a sidecar could not
/// be encoded.
pub enum EncoderAnswer {
    Bytes(Vec<u8>),
    Failed(Error),
    /// A sidecar must be an object.
    NotAnObject,
    SidecarFailed(String),
}

/// The encoder of a format: the one that its reader undoes.
pub open spec fn encoder_of(format: SparseBodyFormat) -> Encoder {
    match format {
        SparseBodyFormat::Document => Encoder::Document,
        SparseBodyFormat::Strict { schema } => Encoder::Tuple { schema },
        SparseBodyFormat::VectorSidecar => Encoder::Sidecar,
    }
}

pub open spec fn sidecar_failure(detail: Seq<char>) -> ErrorView {
    ErrorView::Serialization { format: "vector_sidecar"@, detail }
}

/// What an answer comes to.
pub open spec fn encoded_row(a: EncoderAnswer, r: Result<Vec<u8>, Error>) -> bool {
    match a {
        EncoderAnswer::Bytes(b) => r == Ok::<Vec<u8>, Error>(b),
        EncoderAnswer::Failed(e) => r == Err::<Vec<u8>, Error>(e),
        EncoderAnswer::NotAnObject => r is Err && r->Err_0@ == sidecar_failure(
            "a vector-primary metadata sidecar row must be an object"@,
        ),
        EncoderAnswer::SidecarFailed(e) => r is Err && r->Err_0@ == sidecar_failure(
            "re-encode vector-primary sidecar: "@ + e@,
        ),
    }
}

/// Encode a row in the encoding that its collection stores. `encode` is asked for
/// the encoder of the format, and for no other.
pub fn encode_stored_row<F: Fn(Encoder) -> EncoderAnswer>(format: SparseBodyFormat, encode: F) -> (r:
    Result<Vec<u8>, Error>)
    requires
        encode.requires((encoder_of(format),)),
    ensures
        exists|a: EncoderAnswer| #[trigger]
            encode.ensures((encoder_of(format),), a) && encoded_row(a, r),
{
    let encoder = match format {
        SparseBodyFormat::Document => Encoder::Document,
        SparseBodyFormat::Strict { schema } => Encoder::Tuple { schema },
        SparseBodyFormat::VectorSidecar => Encoder::Sidecar,
    };
    let answer = encode(encoder);
    let ghost a = answer;
    let r = match answer {
        EncoderAnswer::Bytes(b) => Ok(b),
        EncoderAnswer::Failed(e) => Err(e),
        EncoderAnswer::NotAnObject => Err(
            Error::Serialization {
                format: "vector_sidecar".to_owned(),
                detail: "a vector-primary metadata sidecar row must be an object".to_owned(),
            },
        ),
        EncoderAnswer::SidecarFailed(e) => {
            let mut detail = "re-encode vector-primary sidecar: ".to_owned();
            detail.append(e.as_str());
            Err(Error::Serialization { format: "vector_sidecar".to_owned(), detail })
        },
    };
    proof {
        assert(encode.ensures((encoder_of(format),), a) && encoded_row(a, r));
    }
    r
}

/// Two formats have the same encoder only where they are the same, so that a row
/// is written back as it is read.
pub proof fn law_an_encoder_serves_one_format(a: SparseBodyFormat, b: SparseBodyFormat)
    requires
        encoder_of(a) == encoder_of(b),
    ensures
        a == b,
{
}

/// The rows of a vector-primary collection are sidecars, those of another strict one
/// tuples by its schema, and all others documents; each format has its own encoder,
/// by the same schema.
pub proof fn law_a_collection_has_one_format(config: Option<DocConfig>)
    ensures
        format_of(config) is VectorSidecar <==> (config matches Some(c) && c.vector_primary),
        format_of(config) is Strict <==> (config matches Some(c) && !c.vector_primary
            && c.storage_mode is Strict),
        format_of(config) matches SparseBodyFormat::Strict { schema } ==> (
        config->0.storage_mode matches StorageMode::Strict { schema: s } && s == schema),
        format_of(config) is Document <==> (config matches Some(c) ==> !c.vector_primary
            && c.storage_mode is Schemaless),
        encoder_of(format_of(config)) is Document <==> format_of(config) is Document,
        encoder_of(format_of(config)) is Sidecar <==> format_of(config) is VectorSidecar,
        encoder_of(format_of(config)) matches Encoder::Tuple { schema } ==> format_of(config) == (
        SparseBodyFormat::Strict { schema }),
{
}

/// A row is encoded exactly where its encoder gave bytes, and then as those.
pub proof fn law_a_row_is_what_its_encoder_gave(a: EncoderAnswer, r: Result<Vec<u8>, Error>)
    requires
        encoded_row(a, r),
    ensures
        r is Ok <==> a is Bytes,
        r matches Ok(b) ==> a == EncoderAnswer::Bytes(b),
        a matches EncoderAnswer::Failed(e) ==> r->Err_0 == e,
        a is NotAnObject || a is SidecarFailed ==> (r matches Err(e) && e@ is Serialization),
{
}

} // verus!
