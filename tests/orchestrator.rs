use teepod::app::{
    assigned_cid, contains_id, find_process, occupied_cids, App, AppConfig, LoadedVm,
};
use teepod::id_pool::IdPool;
use teepod::model::{
    AppError, BindAddress, Image, ImageInfo, Manifest, PortMapping, ProcessRecord, Protocol,
    TdxConfig, VmConfig,
};
use teepod::registry::AppState;

fn config(max_disk_size: u32) -> AppConfig {
    AppConfig {
        cid_start: 1000,
        cid_pool_size: 100,
        max_disk_size,
        run_path: "/var/teepod/vm".to_string(),
        image_path: "/var/teepod/image".to_string(),
        qemu_path: "/usr/bin/qemu-system-x86_64".to_string(),
    }
}

fn manifest(id: &str, disk_size: u32, created_at_ms: u64) -> Manifest {
    Manifest {
        id: id.to_string(),
        name: format!("name-{id}"),
        app_id: "app".to_string(),
        vcpu: 2,
        memory: 2048,
        disk_size,
        image: "ubuntu-24.04".to_string(),
        port_map: vec![PortMapping {
            address: BindAddress::V4([127, 0, 0, 1]),
            protocol: Protocol::Tcp,
            from: 8080,
            to: 80,
        }],
        created_at_ms,
    }
}

fn image() -> Image {
    Image {
        info: ImageInfo { cmdline: "console=ttyS0".to_string(), version: "0.3.0".to_string() },
        kernel: "/img/kernel".to_string(),
        initrd: "/img/initrd.img".to_string(),
        rootfs: "/img/rootfs.iso".to_string(),
        hda: "/img/hda.img".to_string(),
    }
}

fn loaded(id: &str, disk_size: u32, created_at_ms: u64, started: bool) -> LoadedVm {
    LoadedVm { manifest: manifest(id, disk_size, created_at_ms), image: image(), started }
}

fn process(id: &str, cid: Option<u32>, running: bool) -> ProcessRecord {
    ProcessRecord { id: id.to_string(), cid, running }
}

fn cid_of(app: &App, id: &str) -> Option<u32> {
    app.start_vm(&id.to_string()).ok().and_then(|c| c.tdx_config.map(|t| t.cid))
}

#[test]
fn new_pool_covers_configured_range() {
    let mut app = App::new(config(100));
    assert_eq!(app.load_vm(&loaded("a", 1, 1, false), &Vec::new()), Ok(false));
    assert_eq!(cid_of(&app, "a"), Some(1000));
    assert_eq!(app.config().max_disk_size, 100);
}

#[test]
fn new_pool_saturates_at_u32_max() {
    let mut cfg = config(100);
    cfg.cid_start = u32::MAX - 1;
    cfg.cid_pool_size = 10;
    let mut app = App::new(cfg);
    assert_eq!(app.load_vm(&loaded("a", 1, 1, false), &Vec::new()), Ok(false));
    assert_eq!(app.load_vm(&loaded("b", 1, 1, false), &Vec::new()), Err(AppError::Exhausted));
}

#[test]
fn load_vm_over_disk_limit_leaves_registry_unchanged() {
    let mut app = App::new(config(100));
    assert_eq!(app.load_vm(&loaded("big", 101, 1, true), &Vec::new()), Err(AppError::InvalidConfig));
    assert!(app.list_vms(&Vec::new(), &Vec::new()).is_empty());
    assert_eq!(app.start_vm(&"big".to_string()).err(), Some(AppError::NotFound));
    assert_eq!(app.load_vm(&loaded("small", 100, 2, false), &Vec::new()), Ok(false));
    assert_eq!(cid_of(&app, "small"), Some(1000));
}

#[test]
fn load_vm_reuses_live_cid() {
    let mut app = App::new(config(100));
    let occupied = vec![("a".to_string(), 1042u32)];
    assert_eq!(app.load_vm(&loaded("a", 10, 1, true), &occupied), Ok(true));
    assert_eq!(cid_of(&app, "a"), Some(1042));
    assert_eq!(app.load_vm(&loaded("b", 10, 2, false), &occupied), Ok(false));
    assert_eq!(cid_of(&app, "b"), Some(1000));
}

#[test]
fn load_vm_live_cid_out_of_range_is_invalid() {
    let mut app = App::new(config(100));
    let occupied = vec![("a".to_string(), 5u32)];
    assert_eq!(app.load_vm(&loaded("a", 10, 1, false), &occupied), Err(AppError::InvalidConfig));
    assert_eq!(app.start_vm(&"a".to_string()).err(), Some(AppError::NotFound));
}

#[test]
fn load_vm_exhausts_pool() {
    let mut cfg = config(100);
    cfg.cid_pool_size = 2;
    let mut app = App::new(cfg);
    assert_eq!(app.load_vm(&loaded("a", 1, 1, false), &Vec::new()), Ok(false));
    assert_eq!(app.load_vm(&loaded("b", 1, 2, false), &Vec::new()), Ok(false));
    assert_eq!(app.load_vm(&loaded("c", 1, 3, false), &Vec::new()), Err(AppError::Exhausted));
    assert_eq!(app.list_vms(&Vec::new(), &Vec::new()).len(), 2);
}

#[test]
fn occupied_cids_skip_processes_without_cid() {
    let live = vec![process("a", Some(1001), true), process("b", None, true), process("c", Some(1003), false)];
    let pairs = occupied_cids(&live);
    assert_eq!(pairs, vec![("a".to_string(), 1001), ("c".to_string(), 1003)]);
}

#[test]
fn assigned_cid_last_pair_wins() {
    let pairs = vec![("a".to_string(), 1u32), ("b".to_string(), 2), ("a".to_string(), 3)];
    assert_eq!(assigned_cid(&pairs, &"a".to_string()), Some(3));
    assert_eq!(assigned_cid(&pairs, &"b".to_string()), Some(2));
    assert_eq!(assigned_cid(&pairs, &"z".to_string()), None);
}

#[test]
fn find_process_and_contains_id() {
    let live = vec![process("a", Some(1), false), process("a", Some(2), true)];
    let p = find_process(&live, &"a".to_string()).unwrap();
    assert_eq!(p.cid, Some(2));
    assert!(p.running);
    assert!(find_process(&live, &"b".to_string()).is_none());
    let ids = vec!["x".to_string(), "y".to_string()];
    assert!(contains_id(&ids, &"y".to_string()));
    assert!(!contains_id(&ids, &"z".to_string()));
}

#[test]
fn reload_occupies_live_cids_before_loading() {
    let mut app = App::new(config(100));
    let live = vec![process("old", Some(1000), true)];
    let entries = vec![Ok(loaded("fresh", 1, 1, false)), Ok(loaded("old", 1, 2, true))];
    let out = app.reload_vms(&live, &entries).unwrap();
    assert_eq!(out, vec![Ok(false), Ok(true)]);
    assert_eq!(cid_of(&app, "old"), Some(1000));
    assert_eq!(cid_of(&app, "fresh"), Some(1001));
}

#[test]
fn reload_skips_corrupt_directory() {
    let mut app = App::new(config(100));
    let entries = vec![
        Ok(loaded("v1", 10, 1, false)),
        Err(AppError::InvalidConfig),
        Ok(loaded("v2", 10, 2, false)),
    ];
    let out = app.reload_vms(&Vec::new(), &entries).unwrap();
    assert_eq!(out, vec![Ok(false), Err(AppError::InvalidConfig), Ok(false)]);
    let list = app.list_vms(&Vec::new(), &Vec::new());
    assert_eq!(list.len(), 2);
    assert_eq!(list[0].manifest.id, "v1");
    assert_eq!(list[1].manifest.id, "v2");
}

#[test]
fn reload_fails_on_live_cid_outside_pool() {
    let mut app = App::new(config(100));
    let live = vec![process("x", Some(7), true)];
    let entries = vec![Ok(loaded("x", 1, 1, true))];
    assert_eq!(app.reload_vms(&live, &entries), Err(AppError::InvalidConfig));
    assert!(app.list_vms(&live, &Vec::new()).is_empty());
}

#[test]
fn reload_after_crash_before_deploy_starts_again() {
    // The started flag was written, then the process died before the deploy call.
    let mut before = App::new(config(100));
    assert_eq!(before.load_vm(&loaded("v1", 10, 1, false), &Vec::new()), Ok(false));
    assert!(before.start_vm(&"v1".to_string()).is_ok());
    let flag_on_disk = true;
    let mut after = App::new(config(100));
    let out = after.reload_vms(&Vec::new(), &vec![Ok(loaded("v1", 10, 1, flag_on_disk))]).unwrap();
    assert_eq!(out, vec![Ok(true)]);
    let cfg = after.start_vm(&"v1".to_string()).unwrap();
    assert_eq!(cfg.manifest.id, "v1");
}

#[test]
fn remove_refused_while_running() {
    let mut app = App::new(config(100));
    assert_eq!(app.load_vm(&loaded("v1", 10, 1, true), &Vec::new()), Ok(true));
    let info = Some(process("v1", Some(1000), true));
    assert_eq!(App::check_remove(&info), Err(AppError::Conflict));
    assert_eq!(cid_of(&app, "v1"), Some(1000));
    assert_eq!(app.list_vms(&Vec::new(), &Vec::new()).len(), 1);
}

#[test]
fn check_remove_reports_supervisor_record() {
    assert_eq!(App::check_remove(&None), Ok(false));
    assert_eq!(App::check_remove(&Some(process("v1", None, false))), Ok(true));
}

#[test]
fn remove_vm_frees_cid() {
    let mut app = App::new(config(100));
    assert_eq!(app.load_vm(&loaded("a", 1, 1, false), &Vec::new()), Ok(false));
    let removed = app.remove_vm(&"a".to_string()).unwrap();
    assert_eq!(removed.tdx_config, Some(TdxConfig { cid: 1000 }));
    assert!(app.remove_vm(&"a".to_string()).is_none());
    assert_eq!(app.load_vm(&loaded("b", 1, 2, false), &Vec::new()), Ok(false));
    assert_eq!(cid_of(&app, "b"), Some(1000));
}

#[test]
fn list_vms_sorted_by_creation_and_merged() {
    let mut app = App::new(config(100));
    assert_eq!(app.load_vm(&loaded("late", 1, 30, false), &Vec::new()), Ok(false));
    assert_eq!(app.load_vm(&loaded("early", 1, 10, false), &Vec::new()), Ok(false));
    assert_eq!(app.load_vm(&loaded("mid", 1, 20, false), &Vec::new()), Ok(false));
    let live = vec![process("mid", Some(1002), true), process("ghost", None, true)];
    let started = vec!["mid".to_string(), "late".to_string()];
    let list = app.list_vms(&live, &started);
    let ids: Vec<&str> = list.iter().map(|i| i.manifest.id.as_str()).collect();
    assert_eq!(ids, vec!["early", "mid", "late"]);
    assert!(!list[0].running && !list[0].started);
    assert!(list[1].running && list[1].started);
    assert!(!list[2].running && list[2].started);
    assert_eq!(list[0].cid, Some(1001));
}

#[test]
fn get_vm_merges_state() {
    let mut app = App::new(config(100));
    assert_eq!(app.load_vm(&loaded("a", 1, 5, false), &Vec::new()), Ok(false));
    let info = app.get_vm(&"a".to_string(), &Some(process("a", Some(1000), true)), true).unwrap();
    assert!(info.running && info.started);
    assert_eq!(info.manifest.created_at_ms, 5);
    assert_eq!(info.manifest.port_map.len(), 1);
    assert!(app.get_vm(&"b".to_string(), &None, false).is_none());
}

#[test]
fn end_to_end_lifecycle() {
    let mut app = App::new(config(100));
    assert_eq!(app.load_vm(&loaded("v1", 10, 1, false), &Vec::new()), Ok(false));
    // start: the flag is set, then the configuration is deployed
    let mut started: Vec<String> = Vec::new();
    let cfg = app.start_vm(&"v1".to_string()).unwrap();
    started.push("v1".to_string());
    assert_eq!(cfg.tdx_config, Some(TdxConfig { cid: 1000 }));
    let live = vec![process("v1", Some(1000), true)];
    let list = app.list_vms(&live, &started);
    assert_eq!(list.len(), 1);
    assert_eq!(list[0].manifest.id, "v1");
    assert!(list[0].running && list[0].started);
    // stop: the flag is cleared, then the process is stopped
    started.clear();
    let live = vec![process("v1", Some(1000), false)];
    assert_eq!(App::check_remove(&Some(process("v1", Some(1000), false))), Ok(true));
    let removed = app.remove_vm(&"v1".to_string()).unwrap();
    assert_eq!(removed.manifest.id, "v1");
    assert!(app.get_vm(&"v1".to_string(), &None, false).is_none());
    assert!(app.list_vms(&live, &started).is_empty());
    assert_eq!(app.load_vm(&loaded("v2", 10, 2, false), &Vec::new()), Ok(false));
    assert_eq!(cid_of(&app, "v2"), Some(1000));
}

#[test]
fn registry_add_get_remove() {
    let mut pool = IdPool::new(0, 4);
    let cid = pool.allocate().unwrap();
    let mut state = AppState::new(pool);
    let vm = VmConfig { manifest: manifest("a", 1, 1), image: image(), tdx_config: Some(TdxConfig { cid }) };
    state.add(vm);
    let vm2 = VmConfig { manifest: manifest("a", 2, 9), image: image(), tdx_config: None };
    state.add(vm2);
    assert_eq!(state.iter_vms().len(), 1);
    assert_eq!(state.get(&"a".to_string()).unwrap().manifest.disk_size, 2);
    state.add(VmConfig { manifest: manifest("b", 3, 3), image: image(), tdx_config: None });
    assert_eq!(state.iter_vms().len(), 2);
    assert_eq!(state.remove(&"a".to_string()).unwrap().manifest.created_at_ms, 9);
    assert!(state.get(&"a".to_string()).is_none());
    assert!(state.remove(&"a".to_string()).is_none());
    assert_eq!(state.iter_vms().len(), 1);
}

#[test]
fn registry_free_cid_keeps_carried_cid() {
    let pool = IdPool::new(0, 4);
    let mut state = AppState::new(pool);
    assert_eq!(state.allocate_cid(), Some(0));
    state.add(VmConfig { manifest: manifest("a", 1, 1), image: image(), tdx_config: Some(TdxConfig { cid: 0 }) });
    state.free_cid(0);
    assert_eq!(state.allocate_cid(), Some(1));
    assert!(state.remove(&"a".to_string()).is_some());
    state.free_cid(0);
    assert_eq!(state.allocate_cid(), Some(0));
    assert_eq!(state.occupy_cid(9), Err(teepod::id_pool::PoolError::OutOfRange));
}

#[test]
fn vm_ids_lists_registered_ids() {
    let mut app = App::new(config(100));
    assert!(app.vm_ids().is_empty());
    assert_eq!(app.load_vm(&loaded("a", 1, 1, false), &Vec::new()), Ok(false));
    assert_eq!(app.load_vm(&loaded("b", 1, 2, false), &Vec::new()), Ok(false));
    assert_eq!(app.load_vm(&loaded("a", 2, 3, false), &Vec::new()), Ok(false));
    let mut ids = app.vm_ids();
    ids.sort();
    assert_eq!(ids, vec!["a".to_string(), "b".to_string()]);
}
