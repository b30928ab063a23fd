//! Health report of the pool: the status of each component, and the overall
//! status that follows from them.

use vstd::prelude::*;
use crate::text::str_eq;

verus! {

/// Status text of a component that works.
pub const HEALTHY: &'static str = "healthy";

/// Status text of a component that does not work.
pub const UNHEALTHY: &'static str = "unhealthy";

/// Overall status where no component is unhealthy and not all are healthy.
pub const DEGRADED: &'static str = "degraded";

/// Message of a component that works and has nothing more to say.
pub const OK_MESSAGE: &'static str = "OK";

/// Status of one component.
#[derive(Debug, Clone, PartialEq, Eq)]
pub struct ComponentStatus {
    pub status: String,
    pub message: String,
    pub latency_ms: Option<u64>,
}

/// What a [`ComponentStatus`] stands for.
pub struct ComponentModel {
    pub status: Seq<char>,
    pub message: Seq<char>,
    pub latency_ms: Option<u64>,
}

impl View for ComponentStatus {
    type V = ComponentModel;

    open spec fn view(&self) -> ComponentModel {
        ComponentModel {
            status: self.status@,
            message: self.message@,
            latency_ms: self.latency_ms,
        }
    }
}

/// The health report.
#[derive(Debug, Clone, PartialEq, Eq)]
pub struct HealthStatus {
    pub status: String,
    pub database: ComponentStatus,
    pub bitcoin_rpc: ComponentStatus,
    pub zmq: ComponentStatus,
    pub uptime_seconds: u64,
    pub active_connections: u64,
    pub last_block_height: Option<u64>,
    pub memory_mb: Option<u64>,
}

/// What a [`HealthStatus`] stands for.
pub struct HealthModel {
    pub status: Seq<char>,
    pub database: ComponentModel,
    pub bitcoin_rpc: ComponentModel,
    pub zmq: ComponentModel,
    pub uptime_seconds: u64,
    pub active_connections: u64,
    pub last_block_height: Option<u64>,
    pub memory_mb: Option<u64>,
}

impl View for HealthStatus {
    type V = HealthModel;

    open spec fn view(&self) -> HealthModel {
        HealthModel {
            status: self.status@,
            database: self.database@,
            bitcoin_rpc: self.bitcoin_rpc@,
            zmq: self.zmq@,
            uptime_seconds: self.uptime_seconds,
            active_connections: self.active_connections,
            last_block_height: self.last_block_height,
            memory_mb: self.memory_mb,
        }
    }
}

/// The overall status that follows from the status texts of the three
/// components: healthy where all three are, unhealthy where one of them is,
/// degraded otherwise.
pub open spec fn overall(database: Seq<char>, bitcoin_rpc: Seq<char>, zmq: Seq<char>) -> Seq<char> {
    if database == HEALTHY@ && bitcoin_rpc == HEALTHY@ && zmq == HEALTHY@ {
        HEALTHY@
    } else if database == UNHEALTHY@ || bitcoin_rpc == UNHEALTHY@ || zmq == UNHEALTHY@ {
        UNHEALTHY@
    } else {
        DEGRADED@
    }
}

/// The block height to report: none while no block was seen.
pub open spec fn reported_height(height: u64) -> Option<u64> {
    if height > 0 {
        Some(height)
    } else {
        None
    }
}

impl ComponentStatus {
    /// A component that works.
    pub fn healthy() -> (s: Self)
        ensures
            s@ == (ComponentModel { status: HEALTHY@, message: OK_MESSAGE@, latency_ms: None }),
    {
        ComponentStatus {
            status: HEALTHY.to_owned(),
            message: OK_MESSAGE.to_owned(),
            latency_ms: None,
        }
    }

    /// A component that does not work, and why.
    pub fn unhealthy(message: &str) -> (s: Self)
        ensures
            s@ == (ComponentModel { status: UNHEALTHY@, message: message@, latency_ms: None }),
    {
        ComponentStatus {
            status: UNHEALTHY.to_owned(),
            message: message.to_owned(),
            latency_ms: None,
        }
    }

    /// The same status with a measured latency.
    pub fn with_latency(self, latency_ms: u64) -> (s: Self)
        ensures
            s@ == (ComponentModel { latency_ms: Some(latency_ms), ..self@ }),
    {
        ComponentStatus { status: self.status, message: self.message, latency_ms: Some(latency_ms) }
    }

    /// The same status with another message.
    pub fn with_message(self, msg: &str) -> (s: Self)
        ensures
            s@ == (ComponentModel { message: msg@, ..self@ }),
    {
        ComponentStatus {
            status: self.status,
            message: msg.to_owned(),
            latency_ms: self.latency_ms,
        }
    }
}

/// The overall status of three components.
pub fn overall_status(
    database: &ComponentStatus,
    bitcoin_rpc: &ComponentStatus,
    zmq: &ComponentStatus,
) -> (status: String)
    ensures
        status@ == overall(database.status@, bitcoin_rpc.status@, zmq.status@),
{
    let db: &str = database.status.as_str();
    let rpc: &str = bitcoin_rpc.status.as_str();
    let z: &str = zmq.status.as_str();
    if str_eq(db, HEALTHY) && str_eq(rpc, HEALTHY) && str_eq(z, HEALTHY) {
        HEALTHY.to_owned()
    } else if str_eq(db, UNHEALTHY) || str_eq(rpc, UNHEALTHY) || str_eq(z, UNHEALTHY) {
        UNHEALTHY.to_owned()
    } else {
        DEGRADED.to_owned()
    }
}

impl HealthStatus {
    /// The report that follows from the three component checks and the
    /// process figures. No connections are counted; a block height of 0 is
    /// reported as none.
    pub fn assemble(
        database: ComponentStatus,
        bitcoin_rpc: ComponentStatus,
        zmq: ComponentStatus,
        uptime_seconds: u64,
        block_height: u64,
        memory_mb: Option<u64>,
    ) -> (report: Self)
        ensures
            report@ == (HealthModel {
                status: overall(database.status@, bitcoin_rpc.status@, zmq.status@),
                database: database@,
                bitcoin_rpc: bitcoin_rpc@,
                zmq: zmq@,
                uptime_seconds,
                active_connections: 0,
                last_block_height: reported_height(block_height),
                memory_mb,
            }),
    {
        let status: String = overall_status(&database, &bitcoin_rpc, &zmq);
        let last_block_height: Option<u64> = if block_height > 0 {
            Some(block_height)
        } else {
            None
        };
        HealthStatus {
            status,
            database,
            bitcoin_rpc,
            zmq,
            uptime_seconds,
            active_connections: 0,
            last_block_height,
            memory_mb,
        }
    }
}

} // verus!
