use tuix_core::entity::{AllocationError, Entity, EntityManager, MINIMUM_FREE_INDICES};

#[test]
fn create() {
    let entity = Entity::new(42, 69);
    assert_eq!(entity.index(), Some(42));
    assert_eq!(entity.generation(), Some(69));
}

#[test]
fn null_and_root() {
    assert!(Entity::null().is_null());
    assert_eq!(Entity::null().index(), None);
    assert_eq!(Entity::null().generation(), None);
    assert_eq!(Entity::root().index(), Some(0));
    assert_eq!(Entity::root().generation(), Some(0));
    assert!(!Entity::root().is_null());
    assert_eq!(Entity::default(), Entity::null());
}

#[test]
fn encoding_packs_index_low_generation_high() {
    assert_eq!(Entity::new(1, 1), Entity(0x0100_0001));
    assert_eq!(Entity::new(0xff_fffe, 255).index(), Some(0xff_fffe));
    assert_eq!(Entity::new(0xff_fffe, 255).generation(), Some(255));
    assert_eq!(Entity::new(7, 3).index_unchecked(), 7);
}

#[test]
fn alive_entities_are_distinct() {
    let mut m = EntityManager::new();
    let mut alive = Vec::new();
    for _ in 0..50 {
        alive.push(m.create_entity().unwrap());
    }
    for e in alive.drain(10..20).collect::<Vec<_>>() {
        m.destroy_entity(e).unwrap();
    }
    for _ in 0..30 {
        alive.push(m.create_entity().unwrap());
    }
    for i in 0..alive.len() {
        assert!(m.is_alive(alive[i]));
        for j in (i + 1)..alive.len() {
            assert_ne!(alive[i], alive[j]);
        }
    }
}

#[test]
fn destroyed_entity_stays_dead_after_reuse() {
    let mut m = EntityManager::new();
    let mut all = Vec::new();
    for _ in 0..(MINIMUM_FREE_INDICES + 2) {
        all.push(m.create_entity().unwrap());
    }
    for e in &all {
        m.destroy_entity(*e).unwrap();
        assert!(!m.is_alive(*e));
    }
    let reused = m.create_entity().unwrap();
    assert_eq!(reused.index(), Some(0));
    assert_eq!(reused.generation(), Some(1));
    assert!(m.is_alive(reused));
    assert!(!m.is_alive(all[0]));
    assert_ne!(reused, all[0]);
}

#[test]
fn is_alive_is_false_out_of_range() {
    let m = EntityManager::new();
    assert!(!m.is_alive(Entity::new(5, 0)));
    assert!(!m.is_alive(Entity::null()));
}

#[test]
fn reuse_waits_for_low_water_mark() {
    let mut m = EntityManager::new();
    let mut all = Vec::new();
    for _ in 0..2000 {
        all.push(m.create_entity().unwrap());
    }
    for e in &all[0..1500] {
        m.destroy_entity(*e).unwrap();
    }
    // 1500 freed indices wait: the oldest are reused until 1024 remain.
    for k in 0..476u32 {
        let e = m.create_entity().unwrap();
        assert_eq!(e.index(), Some(k as usize));
        assert_eq!(e.generation(), Some(1));
    }
    let fresh = m.create_entity().unwrap();
    assert_eq!(fresh.index(), Some(2000));
    assert_eq!(fresh.generation(), Some(0));
}

#[test]
fn no_reuse_at_exactly_low_water_mark() {
    let mut m = EntityManager::new();
    let mut all = Vec::new();
    for _ in 0..1100 {
        all.push(m.create_entity().unwrap());
    }
    for e in &all[0..1024] {
        m.destroy_entity(*e).unwrap();
    }
    let e = m.create_entity().unwrap();
    assert_eq!(e.index(), Some(1100));
    m.destroy_entity(e).unwrap();
    let again = m.create_entity().unwrap();
    assert_eq!(again.index(), Some(0));
    assert_eq!(again.generation(), Some(1));
}

#[test]
fn generation_overflow_is_refused() {
    let mut m = EntityManager::new();
    let mut all = Vec::new();
    for _ in 0..(MINIMUM_FREE_INDICES + 2) {
        all.push(m.create_entity().unwrap());
    }
    for e in &all {
        m.destroy_entity(*e).unwrap();
    }
    // Cycle until index 0 reaches generation 255.
    let mut e = m.create_entity().unwrap();
    while e.generation() != Some(255) || e.index() != Some(0) {
        m.destroy_entity(e).unwrap();
        e = m.create_entity().unwrap();
    }
    assert_eq!(m.destroy_entity(e), Err(AllocationError::GenerationOverflow));
    assert!(m.is_alive(e));
}

#[test]
fn index_space_exhausted() {
    let mut m = EntityManager::new();
    let mut last = Entity::null();
    for _ in 0..0xff_ffff {
        last = m.create_entity().unwrap();
    }
    assert_eq!(last.index(), Some(0xff_fffe));
    assert_eq!(m.create_entity(), Err(AllocationError::IndexSpaceExhausted));
}
