use tetrio_replay::event::GameType;
use tetrio_replay::rng::{PieceQueue, Rng};
use tetrio_replay::tetromino::MinoVariant;

#[test]
fn based() {
    let base = ['z', 'l', 'o', 's', 'i', 'j', 't'];

    // the first game of a recorded replay
    let mut rng = Rng::seeded(1742887628);

    assert_eq!(rng.shuffle_array(base), ['z', 'l', 'i', 'o', 'j', 't', 's']);
    assert_eq!(rng.shuffle_array(base), ['i', 't', 'j', 'l', 'o', 'z', 's']);
    assert_eq!(rng.shuffle_array(base), ['s', 'j', 't', 'o', 'l', 'i', 'z']);
    assert_eq!(rng.shuffle_array(base), ['l', 'j', 't', 'o', 's', 'i', 'z']);
}

#[test]
fn standard_queue_deals_the_fixture_bags() {
    let mut q = PieceQueue::standard(1742887628);
    let dealt: Vec<MinoVariant> = (0..28).map(|_| q.pop()).collect();
    assert_eq!(
        dealt,
        "ZLIOJTSITJLOZSSJTOLIZLJTOSIZ"
            .chars()
            .map(|c| match c {
                'L' => MinoVariant::L,
                'J' => MinoVariant::J,
                'T' => MinoVariant::T,
                'Z' => MinoVariant::Z,
                'S' => MinoVariant::S,
                'O' => MinoVariant::O,
                _ => MinoVariant::I,
            })
            .collect::<Vec<_>>()
    );
}

#[test]
fn generator_steps_by_the_multiplier() {
    let mut rng = Rng::seeded(1);
    assert_eq!(rng.next(), 16807);
    assert_eq!(rng.next(), 282475249);
    assert_eq!(rng.next(), 1622650073);
}

#[test]
fn seed_is_reduced_modulo_the_modulus() {
    let rng = Rng::seeded(2147483647 + 5);
    assert_eq!(rng.state, 5);
}

#[test]
fn one_element_shuffle_draws_nothing() {
    // a one-element slice is left as it is and draws nothing
    let mut rng = Rng::seeded(7);
    let mut one = [3u8];
    rng.shuffle_slice(&mut one);
    assert_eq!(one, [3]);
    assert_eq!(rng.state, 7);
}

#[test]
fn forty_line_queue_uses_its_own_bag() {
    let mut a = PieceQueue::fortyline(99);
    let mut b = PieceQueue::from_game(GameType::FortyLine, 99);
    let mut c = PieceQueue::standard(99);
    let xs: Vec<MinoVariant> = (0..7).map(|_| a.pop()).collect();
    let ys: Vec<MinoVariant> = (0..7).map(|_| b.pop()).collect();
    let zs: Vec<MinoVariant> = (0..7).map(|_| c.pop()).collect();
    assert_eq!(xs, ys);
    let mut sorted_x = xs.clone();
    sorted_x.sort_by_key(|v| format!("{:?}", v));
    let mut sorted_z = zs.clone();
    sorted_z.sort_by_key(|v| format!("{:?}", v));
    assert_eq!(sorted_x, sorted_z);
}

#[test]
fn generate_appends_a_whole_bag() {
    let mut q = PieceQueue::meaningless();
    q.generate();
    q.generate();
    assert_eq!(q.window.len(), 14);
}

#[test]
fn generator_step_is_defined_on_zero() {
    let mut rng = Rng { state: 0 };
    assert_eq!(rng.next(), 0);
    assert_eq!(rng.state, 0);
}

#[test]
fn queues_accept_any_seed() {
    let q = PieceQueue::standard(0);
    assert_eq!(q.rng.state, 0);
    let r = PieceQueue::from_game(GameType::League, 2147483647 * 2 + 9);
    assert_eq!(r.rng.state, 9);
    assert_eq!(Rng::seeded(2147483647).state, 0);
}
