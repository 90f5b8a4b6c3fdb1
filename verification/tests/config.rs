use firefly_chip8::config::{Config, Input, Source};
use firefly_rust::Peer;

fn peers(n: usize) -> Vec<Peer> {
    vec![Peer::COMBINED; n]
}

#[test]
fn default_config() {
    let c = Config::default();
    assert_eq!(c.speed, 17);
    assert_eq!(c.inputs[2], Some((Source::Combined, Input::U)));
    assert_eq!(c.inputs[4], Some((Source::Combined, Input::L)));
    assert_eq!(c.inputs[6], Some((Source::Combined, Input::R)));
    assert_eq!(c.inputs[8], Some((Source::Combined, Input::D)));
    assert_eq!(c.inputs[0xA], Some((Source::Combined, Input::S)));
    assert_eq!(c.inputs[0xB], Some((Source::Combined, Input::E)));
    assert_eq!(c.inputs[0], None);
    assert_eq!(c.inputs[0xF], None);
}

#[test]
fn readme_example() {
    let ps = peers(2);
    let c = Config::load(b"speed=14\n2=1U\nC=2U\nD=SN", &ps).unwrap();
    assert_eq!(c.speed, 14);
    assert_eq!(c.inputs[2], Some((Source::Peer(ps[0]), Input::U)));
    assert_eq!(c.inputs[0xC], Some((Source::Peer(ps[1]), Input::U)));
    assert_eq!(c.inputs[0xD], Some((Source::Combined, Input::N)));
    // Keys that the file does not mention keep their defaults.
    assert_eq!(c.inputs[4], Some((Source::Combined, Input::L)));
    assert_eq!(c.inputs[0], None);
}

#[test]
fn empty_file_gives_defaults() {
    let c = Config::load(b"", &peers(1)).unwrap();
    assert_eq!(c.speed, 17);
    assert_eq!(c.inputs[2], Some((Source::Combined, Input::U)));
}

#[test]
fn bad_speed_refuses_the_file() {
    assert!(Config::load(b"speed=fast", &peers(1)).is_none());
    assert!(Config::load(b"speed=70000", &peers(1)).is_none());
    assert!(Config::load(b"speed=", &peers(1)).is_none());
    assert!(Config::load(b"speed=+", &peers(1)).is_none());
    assert!(Config::load(b"speed=-1", &peers(1)).is_none());
    assert!(Config::load(b"2=1U\nspeed=1x\n", &peers(1)).is_none());
}

#[test]
fn speed_forms_that_parse() {
    assert_eq!(Config::load(b"speed=+20", &peers(1)).unwrap().speed, 20);
    assert_eq!(Config::load(b"speed=65535", &peers(1)).unwrap().speed, 65535);
    assert_eq!(Config::load(b"speed=007", &peers(1)).unwrap().speed, 7);
    assert_eq!(Config::load(b"speed=3\nspeed=9\n", &peers(1)).unwrap().speed, 9);
}

#[test]
fn invalid_lines_are_ignored() {
    let ps = peers(2);
    // Peer 3 is not online, G is no key, '-' is no '=', X is no input, too long.
    let c = Config::load(b"2=3U\nG=1L\n2-1L\n2=1X\n2=1UU\n\n", &ps).unwrap();
    assert_eq!(c.speed, 17);
    assert_eq!(c.inputs[2], Some((Source::Combined, Input::U)));
}

#[test]
fn lowercase_keys_and_later_lines_win() {
    let ps = peers(4);
    let c = Config::load(b"c=4W\nC=SE\nf=1D", &ps).unwrap();
    assert_eq!(c.inputs[0xC], Some((Source::Combined, Input::E)));
    assert_eq!(c.inputs[0xF], Some((Source::Peer(ps[0]), Input::D)));
}
