use std::collections::HashMap;
use solitaire_ecs::components::Position;
use solitaire_ecs::entity::Entity;
use solitaire_ecs::system::System;
use solitaire_ecs::world::World;

/// Moves every entity that has a velocity by that velocity. The world holds the game's
/// kinds of component only, so the velocities live in the system itself.
struct MovementSystem {
    velocities: HashMap<Entity, (i32, i32)>,
}

impl System for MovementSystem {
    fn run(&mut self, world: &mut World) {
        for (entity, (dx, dy)) in self.velocities.iter() {
            if world.is_entity_alive(*entity) {
                if let Some(pos) = world.get_component_mut::<Position>(*entity) {
                    pos.x += dx;
                    pos.y += dy;
                }
            }
        }
    }
}

#[test]
fn system_dummy_system_runs_and_modifies_world() {
    let mut world = World::new();
    let mut movement_system = MovementSystem { velocities: HashMap::new() };

    world.register_component::<Position>();

    let entity1 = world.create_entity();
    world.add_component(entity1, Position { x: 0, y: 0 });
    movement_system.velocities.insert(entity1, (1, 1));

    let entity2 = world.create_entity();
    world.add_component(entity2, Position { x: 10, y: 10 });

    assert_eq!(world.get_component::<Position>(entity1).unwrap(), &Position { x: 0, y: 0 });
    assert_eq!(world.get_component::<Position>(entity2).unwrap(), &Position { x: 10, y: 10 });

    movement_system.run(&mut world);

    assert_eq!(world.get_component::<Position>(entity1).unwrap(), &Position { x: 1, y: 1 });
    assert_eq!(world.get_component::<Position>(entity2).unwrap(), &Position { x: 10, y: 10 });

    movement_system.run(&mut world);

    assert_eq!(world.get_component::<Position>(entity1).unwrap(), &Position { x: 2, y: 2 });
    assert_eq!(world.get_component::<Position>(entity2).unwrap(), &Position { x: 10, y: 10 });
}
