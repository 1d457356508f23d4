use vstd::prelude::*;

verus! {

/// Configuration of one network port.
pub struct PortConfiguration {
    /// PCI address of the interface.
    pub name: String,
    pub rx_queues: Vec<i32>,
    pub tx_queues: Vec<i32>,
    /// Receive descriptors per queue.
    pub rxd: i32,
    /// Transmit descriptors per queue.
    pub txd: i32,
    pub loopback: bool,
    /// Hardware TCP segmentation offload.
    pub tso: bool,
    /// Hardware checksum offload.
    pub csum: bool,
}

/// Configuration of the packet-processing substrate.
pub struct NetbricksConfiguration {
    pub name: String,
    /// Whether DPDK runs as a secondary process.
    pub secondary: bool,
    pub primary_core: i32,
    pub cores: Vec<i32>,
    pub strict: bool,
    pub ports: Vec<PortConfiguration>,
    /// Packet buffers in the memory pool.
    pub pool_size: u32,
    /// Packet buffers cached per core.
    pub cache_size: u32,
    pub dpdk_args: Option<String>,
}

/// The default configuration: the client's parent thread on core 0 and one scheduler on
/// core 1; a pool of 2047 buffers with 64 cached per core; DPDK as a primary process with no
/// extra arguments; one port, "0000:04:00.1", with one receive and one transmit queue on
/// core 1, 256 descriptors each way, and loopback, segmentation offload and checksum offload
/// off.
pub fn get_default_netbricks_config() -> (r: NetbricksConfiguration)
    ensures
        r.name@ == "client"@,
        !r.secondary,
        r.primary_core == 0,
        r.cores@ == seq![1i32],
        r.strict,
        r.pool_size == 2047,
        r.cache_size == 64,
        r.dpdk_args is None,
        r.ports@.len() == 1,
        r.ports@[0].name@ == "0000:04:00.1"@,
        r.ports@[0].rx_queues@ == seq![1i32],
        r.ports@[0].tx_queues@ == seq![1i32],
        r.ports@[0].rxd == 256,
        r.ports@[0].txd == 256,
        !r.ports@[0].loopback,
        !r.ports@[0].tso,
        !r.ports@[0].csum,
{
    let mut cores: Vec<i32> = Vec::new();
    cores.push(1);
    let mut rx_queues: Vec<i32> = Vec::new();
    rx_queues.push(1);
    let mut tx_queues: Vec<i32> = Vec::new();
    tx_queues.push(1);
    let port = PortConfiguration {
        name: String::from_str("0000:04:00.1"),
        rx_queues,
        tx_queues,
        rxd: 256,
        txd: 256,
        loopback: false,
        tso: false,
        csum: false,
    };
    let mut ports: Vec<PortConfiguration> = Vec::new();
    ports.push(port);
    proof {
        assert(cores@ =~= seq![1i32]);
    }
    NetbricksConfiguration {
        name: String::from_str("client"),
        secondary: false,
        primary_core: 0,
        cores,
        strict: true,
        ports,
        pool_size: 2048 - 1,
        cache_size: 64,
        dpdk_args: None,
    }
}

} // verus!
