//! Physical plans, as far as transactions look into them.
use vstd::prelude::*;

verus! {

/// An operation on a key-value collection.
pub enum KvOp {
    Put { collection: String, key: Vec<u8>, value: Vec<u8>, surrogate: u32 },
    Insert { collection: String, key: Vec<u8>, value: Vec<u8>, surrogate: u32 },
    InsertIfAbsent { collection: String, key: Vec<u8>, value: Vec<u8>, surrogate: u32 },
    InsertOnConflictUpdate { collection: String, key: Vec<u8>, value: Vec<u8>, surrogate: u32 },
    Delete { collection: String, keys: Vec<Vec<u8>> },
    BatchPut { collection: String },
    Incr { collection: String },
    IncrFloat { collection: String },
    Cas { collection: String },
    GetSet { collection: String },
    FieldSet { collection: String },
    Transfer { collection: String },
    TransferItem { source_collection: String, dest_collection: String },
    Get,
    BatchGet,
    Scan,
    FieldGet,
    GetTtl,
    MaterializeScan,
    SortedIndexRank,
    SortedIndexTopK,
    SortedIndexRange,
    SortedIndexCount,
    SortedIndexScore,
    Expire,
    Persist,
    RegisterIndex,
    DropIndex,
    RegisterSortedIndex,
    DropSortedIndex,
    Truncate,
}

/// The row that a document operation is about.
pub struct PointRow {
    pub collection: String,
    pub document_id: String,
    pub surrogate: u32,
}

/// An operation on a document collection.
pub enum DocumentOp {
    PointInsert { row: PointRow, if_absent: bool },
    PointPut { row: PointRow },
    PointDelete { row: PointRow },
    PointUpdate { row: PointRow },
    /// Whether the rows are to be returned.
    BulkUpdate { returning: bool },
    BulkDelete { returning: bool },
    InsertSelect { target_collection: String, source_collection: String, source_limit: usize },
    Upsert,
    PointGet,
    Scan,
    BatchInsert,
    RangeScan,
    Register,
    IndexLookup,
    IndexedFetch,
    DropIndex,
    BackfillIndex,
    Truncate,
    EstimateCount,
    UpdateFromJoin,
    Merge,
    MaterializeScan,
}

/// An operation on a columnar collection.
pub enum ColumnarOp {
    Insert,
    Scan,
    Update,
    Delete,
    MaterializeScan,
}

/// An operation on a spatial collection.
pub enum SpatialOp {
    Insert,
    Delete,
    Scan,
}

/// An operation on a graph.
pub enum GraphOp {
    EdgePut,
    EdgeDelete,
    EdgePutBatch,
    EdgeDeleteBatch,
    SetNodeLabels,
    RemoveNodeLabels,
    Hop,
    Neighbors,
    NeighborsMulti,
    Path,
    Subgraph,
    RagFusion,
    Algo,
    Match,
    MatchContinuation,
    MatchVarLenResume,
    BspSuperstep,
    WccSuperstep,
    TemporalNeighbors,
    TemporalAlgorithm,
    Stats,
}

/// An operation on a vector collection.
pub enum VectorOp {
    Insert,
    BatchInsert,
    Delete,
    DeleteBySurrogate,
    Search,
    MultiSearch,
    MultiVectorScoreSearch,
    SparseSearch,
    QueryStats,
    Seal,
    CompactIndex,
    Rebuild,
    SetParams,
    DirectUpsert,
    MultiVectorInsert,
    MultiVectorDelete,
    SparseInsert,
    SparseDelete,
}

/// What a request asks the data plane to do.
pub enum PhysicalPlan {
    Document(DocumentOp),
    Kv(KvOp),
    Columnar(ColumnarOp),
    Spatial(SpatialOp),
    Graph(GraphOp),
    Vector(VectorOp),
    Text,
    Timeseries,
    Crdt,
    Query,
    Meta,
    Array,
    ClusterArray,
}

} // verus!
