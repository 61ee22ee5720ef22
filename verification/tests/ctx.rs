use openshmem_rs::shmalloc::{Bound, Bounds};
use openshmem_rs::{ShmemCtx, ShmemError, TeamConfig, PE};

fn name_buffer(name: &str) -> Vec<u8> {
    let mut raw = vec![0u8; 257];
    raw[..name.len()].copy_from_slice(name.as_bytes());
    raw
}

#[test]
fn ctx_meta() {
    let ctx = ShmemCtx::new(PE(0), 1);
    let my_pe = ctx.my_pe().raw();
    let npes = ctx.n_pes();
    assert_ne!(my_pe, usize::MAX);
    assert!(my_pe < npes);
    assert_eq!(ctx.info_get_name_str(&name_buffer("Sandia OpenSHMEM")), "Sandia OpenSHMEM");
}

#[test]
fn shbox() {
    let ctx = ShmemCtx::new(PE(2), 4);
    let shmalloc = ctx.shmallocator();
    let my_pe = ctx.my_pe().raw();

    let mut x = shmalloc.shbox(my_pe);
    assert!(*x.raw() == my_pe);
    *x.raw_mut() = my_pe + 1;
    assert!(*x.raw() == my_pe + 1);
    assert_eq!(**x.shptr().as_ref(), my_pe + 1);
}

#[test]
fn pe_raw_and_compare() {
    let pe = PE(7);
    assert_eq!(pe.raw(), 7);
    assert!(pe.eq_raw(7));
    assert!(!pe.eq_raw(8));
}

#[test]
fn ctx_reports_its_pe_and_world() {
    let ctx = ShmemCtx::new(PE(3), 5);
    assert_eq!(ctx.my_pe().0, 3);
    assert_eq!(ctx.n_pes(), 5);
    ctx.finalize();
}

#[test]
fn team_queries_map_minus_one_to_none() {
    let ctx = ShmemCtx::new(PE(0), 2);
    assert!(ctx.team_my_pe(-1).is_none());
    assert_eq!(ctx.team_my_pe(1).map(|p| p.0), Some(1));
    assert!(ctx.team_n_pes(-1).is_none());
    assert_eq!(ctx.team_n_pes(0).map(|p| p.0), Some(0));
}

#[test]
fn info_name_stops_at_first_nul() {
    let ctx = ShmemCtx::new(PE(0), 1);
    let mut raw = name_buffer("OSSS");
    raw[10] = b'x';
    assert_eq!(ctx.info_get_name(&raw), b"OSSS".to_vec());
    assert_eq!(ctx.info_get_name_str(&raw), "OSSS");
}

#[test]
fn info_name_replaces_invalid_utf8() {
    let ctx = ShmemCtx::new(PE(0), 1);
    let raw = vec![b'a', 0xff, b'b', 0];
    assert_eq!(ctx.info_get_name_str(&raw), "a\u{FFFD}b");
}

#[test]
fn team_config_keeps_num_contexts() {
    assert_eq!(TeamConfig::new(4).num_contexts, 4);
    assert_eq!(TeamConfig::new(1usize << 32).num_contexts, 0);
}

#[test]
fn pe_reference_points_at_pe() {
    let ctx = ShmemCtx::new(PE(0), 3);
    let r = ctx.pe(2, true);
    assert_eq!(r.pe.0, 2);
}

#[test]
fn errors_carry_their_pe() {
    let e = ShmemError::Inaccessible(PE(4));
    match e {
        ShmemError::Inaccessible(p) => assert_eq!(p.0, 4),
        _ => panic!("wrong variant"),
    }
    let _ = Bounds { start: Bound::Unbounded, end: Bound::Unbounded };
}
