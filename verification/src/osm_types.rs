use vstd::prelude::*;

verus! {

pub type Bytes = Vec<u8>;

pub enum BlobType {
    OSMHeader,
    OSMData,
    Other(String),
}

/// One block of a PBF file: the length of its header, the header's type, the header and
/// the blob it describes.
pub struct OSMBlock {
    pub length_of_header: u32,
    pub blob_header_type: BlobType,
    pub blob_header: BlobHeader,
    pub blob: Blob,
}

/// A blob header; `kind` holds the format's "type" field.
pub struct BlobHeader {
    pub kind: String,
    pub index_data: Bytes,
    pub data_size: i32,
}

/// A blob: its uncompressed size when given, and its data.
pub struct Blob {
    pub raw_size: Option<i32>,
    pub data: BlobData,
}

/// The forms blob data can take, by compression.
pub enum BlobData {
    Raw(Bytes),
    Zlib(Bytes),
    Lzma(Bytes),
    ObsoleteBZip2(Bytes),
    Lz4(Bytes),
    Zstd(Bytes),
}

impl Blob {
    pub fn new(raw_size: Option<i32>, data: BlobData) -> (res: Self)
        ensures
            res.raw_size == raw_size,
            res.data == data,
    {
        Self { raw_size, data }
    }
}

pub struct HeaderBlock {
    pub bbox: Option<HeaderBBox>,
    pub required_features: Vec<String>,
    pub optional_features: Vec<String>,
    pub writing_program: Option<String>,
    pub source: Option<String>,
    pub osmosis_replication_timestamp: Option<i64>,
    pub osmosis_replication_sequence_number: Option<i64>,
    pub osmosis_replication_base_url: Option<String>,
}

pub struct HeaderBBox {
    pub left: i64,
    pub right: i64,
    pub top: i64,
    pub bottom: i64,
}

/// Metadata about an object.
pub struct Info {
    pub version: Option<i32>,
    pub timestamp: Option<i64>,
    pub changeset: Option<i64>,
    pub uid: Option<i32>,
    pub user_sid: Option<u32>,
    pub visible: Option<bool>,
}

pub struct Node {
    pub id: i64,
    pub keys: Vec<u32>,
    pub vals: Vec<u32>,
    pub info: Option<Info>,
    pub lat: i64,
    pub lon: i64,
}

pub struct DenseInfo {
    pub version: Vec<i32>,
    pub timestamp: Vec<i64>,
    pub changeset: Vec<i64>,
    pub uid: Vec<i32>,
    pub user_sid: Vec<i32>,
    pub visible: Vec<bool>,
}

pub struct DenseNodes {
    pub id: Vec<i64>,
    pub denseinfo: Option<DenseInfo>,
    pub lat: Vec<i64>,
    pub lon: Vec<i64>,
    pub keys_vals: Vec<i32>,
}

pub struct Way {
    pub id: i64,
    pub keys: Vec<u32>,
    pub vals: Vec<u32>,
    pub info: Option<Info>,
    pub refs: Vec<i64>,
    pub lat: Vec<i64>,
    pub lon: Vec<i64>,
}

pub enum MemberType {
    Node,
    Way,
    Relation,
}

/// A relation; `roles_sid`, `memids` and `types` run in parallel.
pub struct Relation {
    pub id: i64,
    pub keys: Vec<u32>,
    pub vals: Vec<u32>,
    pub info: Option<Info>,
    pub roles_sid: Vec<i32>,
    pub memids: Vec<i64>,
    pub types: Vec<MemberType>,
}

pub struct ChangeSet {
    pub id: i64,
}

pub enum PrimitiveGroup {
    Nodes(Vec<Node>),
    DenseNodes(DenseNodes),
    Ways(Vec<Way>),
    Relations(Vec<Relation>),
    ChangeSets(Vec<ChangeSet>),
}

/// A block of primitives; absent granularity is 100, offsets 0, date granularity 1000.
pub struct PrimitiveBlock {
    pub string_table: StringTable,
    pub primitive_groups: Vec<PrimitiveGroup>,
    pub granularity: Option<i32>,
    pub lat_offset: Option<i64>,
    pub lon_offset: Option<i64>,
    pub date_granularity: Option<i32>,
}

/// All strings of a block.
pub struct StringTable {
    pub strings: Vec<Bytes>,
}

} // verus!
