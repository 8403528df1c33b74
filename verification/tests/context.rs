use svc_context::{Context, Executor};

#[test]
fn scenario_state_and_extension_round_trip() {
    let mut ctx = Context::new(42u32, Executor::default());
    assert_eq!(*ctx.state(), 42u32);
    ctx.extensions_mut().insert(String::from("peer-id-7"));
    assert_eq!(ctx.extensions().get::<String>().cloned(), Some(String::from("peer-id-7")));
    let mut ctx2 = ctx.clone();
    ctx2.extensions_mut().remove::<String>();
    assert_eq!(ctx.extensions().get::<String>().cloned(), Some(String::from("peer-id-7")));
    assert!(ctx2.extensions().get::<String>().is_none());
}

#[test]
fn many_clones_mutate_independently() {
    let mut root: Context<()> = Context::default();
    root.extensions_mut().insert(0u64);
    root.extensions_mut().insert(String::from("shared"));
    let mut clones: Vec<Context<()>> = Vec::new();
    let mut i: u64 = 0;
    while i < 5 {
        let mut c = root.clone();
        c.extensions_mut().insert(i + 1);
        if i % 2 == 0 {
            c.extensions_mut().remove::<String>();
        }
        clones.push(c);
        i += 1;
    }
    assert_eq!(root.extensions().get::<u64>().copied(), Some(0u64));
    assert_eq!(root.extensions().get::<String>().cloned(), Some(String::from("shared")));
    let mut j: usize = 0;
    for c in clones.iter() {
        assert_eq!(c.extensions().get::<u64>().copied(), Some(j as u64 + 1));
        if j % 2 == 0 {
            assert!(c.extensions().get::<String>().is_none());
        } else {
            assert_eq!(c.extensions().get::<String>().cloned(), Some(String::from("shared")));
        }
        j += 1;
    }
}

#[test]
fn state_is_identical_across_clones() {
    let ctx = Context::new(String::from("config"), Executor::default());
    let c1 = ctx.clone();
    let c2 = c1.clone();
    let mut c3 = c2.clone();
    c3.extensions_mut().insert(9u32);
    assert_eq!(ctx.state(), c1.state());
    assert_eq!(c1.state(), c2.state());
    assert_eq!(c2.state(), c3.state());
    assert_eq!(*c3.state(), String::from("config"));
}

#[test]
fn default_context_has_no_guard() {
    let ctx: Context<()> = Context::default();
    assert!(ctx.guard().is_none());
    assert!(ctx.executor().guard().is_none());
    assert!(ctx.extensions().get::<u32>().is_none());
}

#[test]
fn untouched_entries_keep_original_values_across_clones() {
    let mut root: Context<()> = Context::default();
    root.extensions_mut().insert(String::from("origin"));
    root.extensions_mut().insert(10u64);
    let mut a = root.clone();
    let mut b = root.clone();
    a.extensions_mut().insert(11u64);
    if let Some(s) = b.extensions_mut().get_mut::<String>() {
        s.push_str("-b");
    }
    assert_eq!(root.extensions().get::<String>().cloned(), Some(String::from("origin")));
    assert_eq!(root.extensions().get::<u64>().copied(), Some(10u64));
    assert_eq!(a.extensions().get::<String>().cloned(), Some(String::from("origin")));
    assert_eq!(a.extensions().get::<u64>().copied(), Some(11u64));
    assert_eq!(b.extensions().get::<String>().cloned(), Some(String::from("origin-b")));
    assert_eq!(b.extensions().get::<u64>().copied(), Some(10u64));
}
