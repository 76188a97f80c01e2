//! The data a VM is described by, each type with a mathematical view.
use vstd::prelude::*;

verus! {

/// Transport protocol of a port rule.
#[derive(Debug, Clone, Copy, PartialEq, Eq, Structural)]
pub enum Protocol {
    Tcp,
    Udp,
}

/// Address a forwarded port is bound to on the host.
#[derive(Debug, Clone, Copy, PartialEq, Eq)]
pub enum BindAddress {
    V4([u8; 4]),
    V6([u16; 8]),
}

/// One exposed port rule: host address and port `from` forwarded to guest port `to`.
#[derive(Debug, Clone, Copy, PartialEq, Eq)]
pub struct PortMapping {
    pub address: BindAddress,
    pub protocol: Protocol,
    pub from: u16,
    pub to: u16,
}

/// Durable identity and requested resources of a VM.
#[derive(Debug)]
pub struct Manifest {
    pub id: String,
    pub name: String,
    pub app_id: String,
    pub vcpu: u32,
    pub memory: u32,
    pub disk_size: u32,
    pub image: String,
    pub port_map: Vec<PortMapping>,
    pub created_at_ms: u64,
}

pub struct ManifestModel {
    pub id: Seq<char>,
    pub name: Seq<char>,
    pub app_id: Seq<char>,
    pub vcpu: u32,
    pub memory: u32,
    pub disk_size: u32,
    pub image: Seq<char>,
    pub port_map: Seq<PortMapping>,
    pub created_at_ms: u64,
}

impl View for Manifest {
    type V = ManifestModel;

    open spec fn view(&self) -> ManifestModel {
        ManifestModel {
            id: self.id@,
            name: self.name@,
            app_id: self.app_id@,
            vcpu: self.vcpu,
            memory: self.memory,
            disk_size: self.disk_size,
            image: self.image@,
            port_map: self.port_map@,
            created_at_ms: self.created_at_ms,
        }
    }
}

/// A copy of `v`, element by element.
pub fn copy_ports(v: &Vec<PortMapping>) -> (r: Vec<PortMapping>)
    ensures
        r@ == v@,
{
    let mut r: Vec<PortMapping> = Vec::new();
    let mut i: usize = 0;
    while i < v.len()
        invariant
            i <= v@.len(),
            r@ == v@.subrange(0, i as int),
        decreases v@.len() - i,
    {
        r.push(v[i]);
        i = i + 1;
        assert(r@ =~= v@.subrange(0, i as int));
    }
    assert(r@ =~= v@);
    r
}

impl Manifest {
    /// A copy with the same view.
    pub fn duplicate(&self) -> (r: Manifest)
        ensures
            r@ == self@,
    {
        Manifest {
            id: self.id.clone(),
            name: self.name.clone(),
            app_id: self.app_id.clone(),
            vcpu: self.vcpu,
            memory: self.memory,
            disk_size: self.disk_size,
            image: self.image.clone(),
            port_map: copy_ports(&self.port_map),
            created_at_ms: self.created_at_ms,
        }
    }
}

/// Version record of a bootable image.
#[derive(Debug)]
pub struct ImageInfo {
    pub cmdline: String,
    pub version: String,
}

/// Metadata of a bootable image: the paths of its files and its version record.
#[derive(Debug)]
pub struct Image {
    pub info: ImageInfo,
    pub kernel: String,
    pub initrd: String,
    pub rootfs: String,
    pub hda: String,
}

pub struct ImageModel {
    pub cmdline: Seq<char>,
    pub version: Seq<char>,
    pub kernel: Seq<char>,
    pub initrd: Seq<char>,
    pub rootfs: Seq<char>,
    pub hda: Seq<char>,
}

impl View for Image {
    type V = ImageModel;

    open spec fn view(&self) -> ImageModel {
        ImageModel {
            cmdline: self.info.cmdline@,
            version: self.info.version@,
            kernel: self.kernel@,
            initrd: self.initrd@,
            rootfs: self.rootfs@,
            hda: self.hda@,
        }
    }
}

impl Image {
    /// A copy with the same view.
    pub fn duplicate(&self) -> (r: Image)
        ensures
            r@ == self@,
    {
        Image {
            info: ImageInfo { cmdline: self.info.cmdline.clone(), version: self.info.version.clone() },
            kernel: self.kernel.clone(),
            initrd: self.initrd.clone(),
            rootfs: self.rootfs.clone(),
            hda: self.hda.clone(),
        }
    }
}

/// Trust-domain settings of a VM: its channel identifier.
#[derive(Debug, Clone, Copy, PartialEq, Eq, Structural)]
pub struct TdxConfig {
    pub cid: u32,
}

/// Runtime configuration of a registered VM.
#[derive(Debug)]
pub struct VmConfig {
    pub manifest: Manifest,
    pub image: Image,
    pub tdx_config: Option<TdxConfig>,
}

pub struct VmConfigModel {
    pub manifest: ManifestModel,
    pub image: ImageModel,
    pub cid: Option<u32>,
}

impl View for VmConfig {
    type V = VmConfigModel;

    open spec fn view(&self) -> VmConfigModel {
        VmConfigModel {
            manifest: self.manifest@,
            image: self.image@,
            cid: match self.tdx_config {
                Some(t) => Some(t.cid),
                None => None,
            },
        }
    }
}

impl VmConfig {
    /// A copy with the same view.
    pub fn duplicate(&self) -> (r: VmConfig)
        ensures
            r@ == self@,
    {
        VmConfig {
            manifest: self.manifest.duplicate(),
            image: self.image.duplicate(),
            tdx_config: self.tdx_config,
        }
    }

    /// The listing record of this VM, given its process record and started flag.
    pub fn merge_info(&self, process: Option<&ProcessRecord>, started: bool) -> (r: VmInfo)
        ensures
            r@ == merged(
                self@,
                match process {
                    Some(p) => Some(p@),
                    None => None,
                },
                started,
            ),
    {
        let running = match process {
            Some(p) => p.running,
            None => false,
        };
        VmInfo {
            manifest: self.manifest.duplicate(),
            cid: match self.tdx_config {
                Some(t) => Some(t.cid),
                None => None,
            },
            running,
            started,
        }
    }

    /// The VM's id.
    pub fn id(&self) -> (r: &String)
        ensures
            r@ == self@.manifest.id,
    {
        &self.manifest.id
    }
}

/// What the supervisor reports of one worker process.
#[derive(Debug)]
pub struct ProcessRecord {
    pub id: String,
    pub cid: Option<u32>,
    pub running: bool,
}

pub struct ProcessModel {
    pub id: Seq<char>,
    pub cid: Option<u32>,
    pub running: bool,
}

impl View for ProcessRecord {
    type V = ProcessModel;

    open spec fn view(&self) -> ProcessModel {
        ProcessModel { id: self.id@, cid: self.cid, running: self.running }
    }
}

/// A VM as listed to callers: its manifest, channel identifier, live and intended state.
#[derive(Debug)]
pub struct VmInfo {
    pub manifest: Manifest,
    pub cid: Option<u32>,
    pub running: bool,
    pub started: bool,
}

pub struct VmInfoModel {
    pub manifest: ManifestModel,
    pub cid: Option<u32>,
    pub running: bool,
    pub started: bool,
}

impl View for VmInfo {
    type V = VmInfoModel;

    open spec fn view(&self) -> VmInfoModel {
        VmInfoModel {
            manifest: self.manifest@,
            cid: self.cid,
            running: self.running,
            started: self.started,
        }
    }
}

/// What the supervisor's record says of a VM: running only when a record says so.
pub open spec fn running_of(p: Option<ProcessModel>) -> bool {
    match p {
        Some(p) => p.running,
        None => false,
    }
}

/// The view of a VM merged from its configuration, its process record and its started flag.
pub open spec fn merged(c: VmConfigModel, p: Option<ProcessModel>, started: bool) -> VmInfoModel {
    VmInfoModel { manifest: c.manifest, cid: c.cid, running: running_of(p), started }
}

/// Errors of the orchestrator's operations.
#[derive(Debug, Clone, Copy, PartialEq, Eq, Structural)]
pub enum AppError {
    /// No VM of that id is registered.
    NotFound,
    /// No channel identifier is free.
    Exhausted,
    /// A disk size over the limit, a malformed manifest or image, or a channel
    /// identifier outside the pool.
    InvalidConfig,
    /// The VM is running and must be stopped first.
    Conflict,
    /// The supervisor failed.
    ExternalFailure,
    /// A file operation failed.
    IoFailure,
}

} // verus!
