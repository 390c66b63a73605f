use raycast::JitterSampler;
use raycast::RandomSampler;
use raycast::RegularSampler;
use raycast::Sampler;
use raycast::SimpleSampler;
use raycast::SCALE;

#[test]
fn simple_sampler_returns_pixel_center() {
    let mut s = SimpleSampler;
    let out = s.sample(SCALE, (12345, -678));
    assert_eq!(out, vec![(12345, -678)]);
    assert_eq!(s.num_samples(), 1);
}

#[test]
fn simple_sampler_ignores_set_num_samples() {
    let mut s = SimpleSampler;
    s.set_num_samples(25);
    let out = s.sample(SCALE, (7, 9));
    assert_eq!(out, vec![(7, 9)]);
    assert_eq!(s.num_samples(), 1);
}

#[test]
fn regular_sampler_two_by_two_grid() {
    let mut s = RegularSampler {
        sampler_window_size: 2,
    };
    let out = s.sample(SCALE, (0, 0));
    assert_eq!(
        out,
        vec![(-2500, -2500), (2500, -2500), (-2500, 2500), (2500, 2500)]
    );
    assert_eq!(s.num_samples(), 4);
}

#[test]
fn regular_sampler_count_is_square_and_in_pixel() {
    for k in 1..=15u8 {
        let mut s = RegularSampler {
            sampler_window_size: k,
        };
        let cx = 30000;
        let cy = -40000;
        let out = s.sample(SCALE, (cx, cy));
        assert_eq!(out.len(), (k as usize) * (k as usize));
        for (x, y) in out {
            assert!(cx - SCALE / 2 - 1 <= x && x <= cx + SCALE / 2);
            assert!(cy - SCALE / 2 - 1 <= y && y <= cy + SCALE / 2);
        }
    }
}

#[test]
fn regular_sampler_zero_pixel_size_collapses_to_center() {
    let mut s = RegularSampler {
        sampler_window_size: 3,
    };
    let out = s.sample(0, (11, 22));
    assert_eq!(out.len(), 9);
    for co in out {
        assert_eq!(co, (11, 22));
    }
}

#[test]
fn set_num_samples_takes_floor_of_square_root() {
    let mut s = RegularSampler {
        sampler_window_size: 1,
    };
    s.set_num_samples(5);
    assert_eq!(s.sampler_window_size, 2);
    assert_eq!(s.num_samples(), 4);
    s.set_num_samples(16);
    assert_eq!(s.sampler_window_size, 4);
    s.set_num_samples(0);
    assert_eq!(s.sampler_window_size, 1);
    s.set_num_samples(255);
    assert_eq!(s.sampler_window_size, 15);
}

#[test]
fn grid_size_clamps_and_floors() {
    assert_eq!(raycast::grid_size(0), 1);
    assert_eq!(raycast::grid_size(1), 1);
    assert_eq!(raycast::grid_size(5), 2);
    assert_eq!(raycast::grid_size(16), 4);
    assert_eq!(raycast::grid_size(255), 15);
}

#[test]
fn jitter_sampler_count_and_bounds() {
    let mut s = JitterSampler::new(16);
    assert_eq!(s.num_samples(), 16);
    let cx = -50000;
    let cy = 20000;
    let out = s.sample(SCALE, (cx, cy));
    assert_eq!(out.len(), 16);
    for (x, y) in out {
        assert!(cx - SCALE / 2 - 1 <= x && x <= cx + SCALE / 2);
        assert!(cy - SCALE / 2 - 1 <= y && y <= cy + SCALE / 2);
    }
}

#[test]
fn jitter_sampler_draws_move_the_samples() {
    // Two consecutive pixels share the grid but not the generator state, so
    // at least one of the sixteen jittered samples should differ.
    let mut s = JitterSampler::new(16);
    let a = s.sample(SCALE, (0, 0));
    let b = s.sample(SCALE, (0, 0));
    assert_eq!(a.len(), b.len());
    assert!(a != b);
}

#[test]
fn random_sampler_count_and_bounds() {
    let mut s = RandomSampler::new(25);
    assert_eq!(s.num_samples(), 25);
    let out = s.sample(2 * SCALE, (0, 0));
    assert_eq!(out.len(), 25);
    for (x, y) in out {
        assert!(-SCALE - 1 <= x && x <= SCALE);
        assert!(-SCALE - 1 <= y && y <= SCALE);
    }
}

#[test]
fn random_sampler_spreads_over_the_pixel() {
    let mut s = RandomSampler::new(100);
    let out = s.sample(SCALE, (0, 0));
    let mut distinct = 0;
    for i in 1..out.len() {
        if out[i] != out[0] {
            distinct += 1;
        }
    }
    // A uniform draw over ten thousand positions per axis collapsing to one
    // point a hundred times is out of the question.
    assert!(distinct > 0);
}
