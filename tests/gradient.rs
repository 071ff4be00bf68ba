use hex_gradient::gradient::{color_gradient, interpolate_channel, DEFAULT_STEPS};
use hex_gradient::hex::hex_to_rgb;

#[test]
fn two_steps_black_to_white() {
    let g = color_gradient("#000000", "#FFFFFF", 2).unwrap();
    assert_eq!(
        g,
        vec![
            ("#000000".to_string(), (0, 0, 0)),
            ("#FFFFFF".to_string(), (255, 255, 255)),
        ]
    );
}

#[test]
fn three_steps_middle_rounds_half_up() {
    let g = color_gradient("#000000", "#FFFFFF", 3).unwrap();
    assert_eq!(g.len(), 3);
    assert_eq!(g[1], ("#808080".to_string(), (128, 128, 128)));
}

#[test]
fn few_steps_default_to_five() {
    assert_eq!(DEFAULT_STEPS, 5);
    for steps in [0usize, 1] {
        let g = color_gradient("#000000", "#FFFFFF", steps).unwrap();
        assert_eq!(g.len(), 5);
    }
}

#[test]
fn length_is_requested_steps() {
    for steps in [2usize, 3, 7, 10, 300] {
        let g = color_gradient("#123456", "#abcdef", steps).unwrap();
        assert_eq!(g.len(), steps);
    }
}

#[test]
fn five_steps_black_to_white() {
    let g = color_gradient("#000000", "#FFFFFF", 5).unwrap();
    let rgbs: Vec<(u8, u8, u8)> = g.iter().map(|p| p.1).collect();
    assert_eq!(rgbs, vec![(0, 0, 0), (64, 64, 64), (128, 128, 128), (191, 191, 191), (255, 255, 255)]);
    assert_eq!(g[1].0, "#404040");
    assert_eq!(g[3].0, "#BFBFBF");
}

#[test]
fn endpoints_are_exact() {
    let cases = [("#ff5733", "#33c1ff"), ("#010203", "#fefdfc"), ("#abcdef", "#abcdef")];
    for (a, b) in cases {
        for steps in [2usize, 3, 6, 11, 97] {
            let g = color_gradient(a, b, steps).unwrap();
            assert_eq!(g[0].1, hex_to_rgb(a).unwrap());
            assert_eq!(g[steps - 1].1, hex_to_rgb(b).unwrap());
            assert_eq!(g[steps - 1].0, b.to_uppercase());
        }
    }
}

#[test]
fn descending_gradient() {
    let g = color_gradient("#FF0000", "#0000FF", 3).unwrap();
    assert_eq!(g[0], ("#FF0000".to_string(), (255, 0, 0)));
    assert_eq!(g[1], ("#800080".to_string(), (128, 0, 128)));
    assert_eq!(g[2], ("#0000FF".to_string(), (0, 0, 255)));
}

#[test]
fn invalid_start_gives_none() {
    assert_eq!(color_gradient("not-a-color", "#FFFFFF", 5), None);
}

#[test]
fn short_start_gives_none() {
    assert_eq!(color_gradient("#12345", "#FFFFFF", 5), None);
}

#[test]
fn invalid_end_gives_none() {
    assert_eq!(color_gradient("#000000", "#FFFFFG", 5), None);
    assert_eq!(color_gradient("#000000", "FFFFFF", 1), None);
}

#[test]
fn channel_rounds_half_up() {
    assert_eq!(interpolate_channel(10, 20, 1, 4), 13);
    assert_eq!(interpolate_channel(20, 10, 1, 4), 18);
    assert_eq!(interpolate_channel(0, 255, 1, 2), 128);
    assert_eq!(interpolate_channel(0, 255, 1, 3), 85);
    assert_eq!(interpolate_channel(0, 255, 2, 3), 170);
}

#[test]
fn channel_endpoints() {
    assert_eq!(interpolate_channel(17, 200, 0, 9), 17);
    assert_eq!(interpolate_channel(17, 200, 9, 9), 200);
    assert_eq!(interpolate_channel(255, 0, usize::MAX, usize::MAX), 0);
    assert_eq!(interpolate_channel(255, 0, 0, usize::MAX), 255);
}

#[test]
fn channel_stays_between_ends() {
    for (s, e) in [(0u8, 255u8), (255, 0), (3, 250), (250, 3), (100, 100)] {
        for last in [1usize, 2, 7, 254, 1000] {
            for i in 0..=last {
                let v = interpolate_channel(s, e, i, last);
                assert!(s.min(e) <= v && v <= s.max(e));
            }
        }
    }
    let v = interpolate_channel(255, 0, usize::MAX / 2, usize::MAX);
    assert_eq!(v, 128);
}
