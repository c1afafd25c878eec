//! The state that one core of the data plane keeps between requests.
use crate::held::{HeldId, HeldState};
use crate::snapshot::segments::{ColumnarModel, ColumnarState};
use crate::timeseries::state::{TsModel, TsState};
use crate::transaction::chain::ChainHeads;
use crate::spatial::{Geometry, SpatialState};
use crate::vectors::registry::{Registry, VectorRegistry};
use vstd::prelude::*;

verus! {

/// One core.
pub struct CoreLoop {
    pub core_id: usize,
    pub vectors: VectorRegistry,
    pub chains: ChainHeads,
    pub spatial: SpatialState,
    pub timeseries: TsState,
    pub columnar: ColumnarState,
    pub held: HeldState,
}

impl CoreLoop {
    pub fn new(core_id: usize) -> (r: Self)
        ensures
            r.core_id == core_id,
            r.vectors@ == (Registry {
                params: Map::empty(),
                dims: Map::empty(),
                configs: Map::empty(),
                ivf: Set::empty(),
            }),
            r.chains@ == Map::<(u64, u64, Seq<char>), Seq<char>>::empty(),
            r.spatial@ == (Geometry { extents: Map::empty(), documents: Map::empty() }),
            r.timeseries@ == (TsModel {
                partitions: Map::empty(),
                ingested: Map::empty(),
                reserved: Map::empty(),
            }),
            r.columnar@ == (ColumnarModel { engines: Set::empty(), flushed: Set::empty() }),
            r.held@ == Set::<HeldId>::empty(),
    {
        CoreLoop {
            core_id,
            vectors: VectorRegistry::new(),
            chains: ChainHeads::new(),
            spatial: SpatialState::new(),
            timeseries: TsState::new(),
            columnar: ColumnarState::new(),
            held: HeldState::new(),
        }
    }
}

} // verus!
