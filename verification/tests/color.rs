use gradient_banner::color::{random_stop_count, Gradient, Rgb, MAX_STOPS, MIN_STOPS};
use gradient_banner::fonts::{random_font, select_random, TypefaceAsset};

fn rgb(r: u8, g: u8, b: u8) -> Rgb {
    Rgb { r, g, b }
}

#[test]
fn fallback_runs_from_coral_to_teal() {
    let gradient = Gradient::fallback();
    assert_eq!(gradient.stops(), &vec![rgb(0xff, 0x6b, 0x6b), rgb(0x4e, 0xcd, 0xc4)]);
}

#[test]
fn two_to_five_stops_are_kept() {
    for n in 2..=5usize {
        let stops: Vec<Rgb> = (0..n).map(|i| rgb(i as u8, 10, 20)).collect();
        assert_eq!(Gradient::from_stops(stops.clone()).stops(), &stops);
    }
}

#[test]
fn degenerate_stops_give_the_fallback() {
    let fallback = vec![rgb(0xff, 0x6b, 0x6b), rgb(0x4e, 0xcd, 0xc4)];
    assert_eq!(Gradient::from_stops(vec![]).stops(), &fallback);
    assert_eq!(Gradient::from_stops(vec![rgb(1, 2, 3)]).stops(), &fallback);
    assert_eq!(Gradient::from_stops(vec![rgb(1, 2, 3); 6]).stops(), &fallback);
}

#[test]
fn stop_count_is_two_to_five() {
    assert_eq!(MIN_STOPS, 2);
    assert_eq!(MAX_STOPS, 5);
    let mut seen = [false; 6];
    for _ in 0..400 {
        let count = random_stop_count();
        assert!((2..=5).contains(&count), "{}", count);
        seen[count] = true;
    }
    assert!(seen[2] && seen[3] && seen[4] && seen[5]);
}

#[test]
fn select_random_stays_in_the_catalogue() {
    assert_eq!(select_random(1), 0);
    let mut seen = [false; 3];
    for _ in 0..300 {
        let index = select_random(3);
        assert!(index < 3);
        seen[index] = true;
    }
    assert!(seen[0] && seen[1] && seen[2]);
}

#[test]
fn random_font_is_one_of_the_catalogue() {
    let catalog = vec![
        TypefaceAsset { name: "one".to_string(), compressed: vec![1] },
        TypefaceAsset { name: "two".to_string(), compressed: vec![2, 2] },
    ];
    for _ in 0..50 {
        let asset = random_font(&catalog);
        assert!(
            (asset.name == "one" && asset.compressed == vec![1])
                || (asset.name == "two" && asset.compressed == vec![2, 2])
        );
    }
}
