use raycaster::world::pillar::{Pillar, Wall};

#[test]
fn pillar_keeps_its_place() {
    let pillar = Pillar::at(-12, 40);
    assert_eq!(pillar.x_pos(), -12);
    assert_eq!(pillar.y_pos(), 40);
    assert_eq!(pillar, Pillar::at(-12, 40));
    assert_ne!(pillar, Pillar::at(40, -12));
}

#[test]
fn wall_keeps_its_pillars_in_order() {
    let first = Pillar::at(0, 4);
    let second = Pillar::at(4, 4);
    let wall = Wall::from_pillars(&first, &second);
    assert_eq!(*wall.pillar1(), first);
    assert_eq!(*wall.pillar2(), second);
    let back = Wall::from_pillars(&second, &first);
    assert_eq!(*back.pillar1(), second);
    assert_eq!(*back.pillar2(), first);
}
