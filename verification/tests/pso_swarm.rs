use mincost::{RandomBits, Swarm};

#[test]
fn a_random_swarm_has_the_requested_shape() {
    fastrand::seed(60);
    let swarm: Swarm<bool> = Swarm::initial_random_pop(5, RandomBits { len: 3 });
    assert_eq!(swarm.population.len(), 5);
    for particle in swarm.population.iter() {
        assert_eq!(particle.position.len(), 3);
        assert_eq!(particle.velocity.len(), 3);
        assert_eq!(particle.best_known_position.len(), 3);
    }
    assert_eq!(swarm.best_known_position.len(), 3);
}

#[test]
fn an_empty_swarm_still_holds_a_best_known_position() {
    fastrand::seed(61);
    let swarm: Swarm<bool> = Swarm::initial_random_pop(0, RandomBits { len: 4 });
    assert_eq!(swarm.population.len(), 0);
    assert_eq!(swarm.best_known_position.len(), 4);
}
