use voxel_engine::ecs::{Entity, EntityIds};

#[test]
fn entity_keeps_its_number() {
    assert_eq!(Entity::new(0).raw(), 0);
    assert_eq!(Entity::new(77).raw(), 77);
    assert_eq!(Entity::new(3), Entity::new(3));
    assert_ne!(Entity::new(3), Entity::new(4));
}

#[test]
fn entity_ids_count_up_from_zero() {
    let mut ids = EntityIds::default();
    assert_eq!(ids.peek(), 0);
    let a = ids.spawn();
    let b = ids.spawn();
    let c = ids.spawn();
    assert_eq!((a.raw(), b.raw(), c.raw()), (0, 1, 2));
    assert_ne!(a, b);
    assert_eq!(ids.peek(), 3);
}
