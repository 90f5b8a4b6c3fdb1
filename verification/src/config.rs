//! The configuration file: how many instructions run per update, and which
//! Firefly input each CHIP-8 key reads.
//!
//! The file holds one setting per line. `speed=14` sets the speed. A line of
//! four bytes such as `2=1U` binds a CHIP-8 key (`0`-`9`, `A`-`F`, either
//! case) to a peer (`1`-`4` for the first to fourth peer online, `S` for all
//! of them together) and a Firefly input (`L`, `R`, `U`, `D` on the pad, or
//! the buttons `S`, `E`, `W`, `N`). Other lines are ignored.
use vstd::prelude::*;

use firefly_rust::Peer;

verus! {

#[verifier::external_type_specification]
#[verifier::external_body]
pub struct ExPeer(firefly_rust::Peer);

/// A Firefly input: a direction of the pad or one of the four buttons.
#[derive(Clone, Copy, PartialEq, Eq, Structural, Debug)]
pub enum Input {
    L,
    R,
    U,
    D,
    S,
    E,
    W,
    N,
}

/// The device that a CHIP-8 key is read from: one peer, or the combination
/// of all connected peers (pressed if any peer presses it).
#[derive(Clone, Copy, PartialEq, Eq, Debug)]
pub enum Source {
    Peer(Peer),
    Combined,
}

/// The emulator's settings.
pub struct Config {
    /// How many CHIP-8 instructions to run per update.
    pub speed: u16,
    /// For each CHIP-8 key, the input that it reads, if any.
    pub inputs: [Option<(Source, Input)>; 16],
}

/// What a configuration holds.
pub struct Settings {
    pub speed: u16,
    pub inputs: Seq<Option<(Source, Input)>>,
}

impl View for Config {
    type V = Settings;

    open spec fn view(&self) -> Settings {
        Settings { speed: self.speed, inputs: self.inputs@ }
    }
}

/// The settings without a configuration file: 17 instructions per update
/// (about 1 MHz at 60 updates a second) and the keys 2, 4, 6, 8, A and B
/// on the pad's up, left, right and down and the buttons S and E of all
/// peers.
pub open spec fn default_settings() -> Settings {
    Settings {
        speed: 17,
        inputs: seq![
            None,
            None,
            Some((Source::Combined, Input::U)),
            None,
            Some((Source::Combined, Input::L)),
            None,
            Some((Source::Combined, Input::R)),
            None,
            Some((Source::Combined, Input::D)),
            None,
            Some((Source::Combined, Input::S)),
            Some((Source::Combined, Input::E)),
            None,
            None,
            None,
            None,
        ],
    }
}

/// The CHIP-8 key that a hexadecimal digit names.
pub open spec fn key_of_char(c: u8) -> Option<int> {
    if 0x30 <= c <= 0x39 {  // '0', '9'
        Some(c - 0x30)  // '0'
    } else if 0x41 <= c <= 0x46 {  // 'A', 'F'
        Some(c - 0x41 + 10)  // 'A'
    } else if 0x61 <= c <= 0x66 {  // 'a', 'f'
        Some(c - 0x61 + 10)  // 'a'
    } else {
        None
    }
}

/// The device that a peer character names, given the peers online.
pub open spec fn source_of_char(c: u8, peers: Seq<Peer>) -> Option<Source> {
    if 0x31 <= c <= 0x34 {  // '1', '4'
        let k = c - 0x31;  // '1'
        if k < peers.len() {
            Some(Source::Peer(peers[k]))
        } else {
            None
        }
    } else if c == 0x53 {  // 'S'
        Some(Source::Combined)
    } else {
        None
    }
}

/// The Firefly input that a character names.
pub open spec fn input_of_char(c: u8) -> Option<Input> {
    if c == 0x4C {  // 'L'
        Some(Input::L)
    } else if c == 0x52 {  // 'R'
        Some(Input::R)
    } else if c == 0x55 {  // 'U'
        Some(Input::U)
    } else if c == 0x44 {  // 'D'
        Some(Input::D)
    } else if c == 0x53 {  // 'S'
        Some(Input::S)
    } else if c == 0x45 {  // 'E'
        Some(Input::E)
    } else if c == 0x57 {  // 'W'
        Some(Input::W)
    } else if c == 0x4E {  // 'N'
        Some(Input::N)
    } else {
        None
    }
}

/// The key binding that a line states: key, `=`, peer, input.
pub open spec fn binding(line: Seq<u8>, peers: Seq<Peer>) -> Option<(int, Source, Input)> {
    if line.len() != 4 || line[1] != 0x3D {  // '='
        None
    } else {
        match (key_of_char(line[0]), source_of_char(line[2], peers), input_of_char(line[3])) {
            (Some(key), Some(source), Some(input)) => Some((key, source, input)),
            _ => None,
        }
    }
}

pub open spec fn is_digit(c: u8) -> bool {
    0x30 <= c <= 0x39  // '0', '9'
}

/// The number that a string of decimal digits spells.
pub open spec fn decimal(s: Seq<u8>) -> nat
    decreases s.len(),
{
    if s.len() == 0 {
        0
    } else {
        decimal(s.drop_last()) * 10 + (s.last() - 0x30) as nat  // '0'
    }
}

/// The digits of a number, after an optional leading `+`.
pub open spec fn unsigned_digits(s: Seq<u8>) -> Seq<u8> {
    if s.len() > 0 && s[0] == 0x2B {  // '+'
        s.drop_first()
    } else {
        s
    }
}

pub open spec fn all_digits(d: Seq<u8>) -> bool {
    forall|k: int| 0 <= k < d.len() ==> is_digit(#[trigger] d[k])
}

/// What `u16::from_str` makes of the bytes: an optional `+`, then one or more
/// decimal digits whose value fits in 16 bits.
pub open spec fn parse_u16_spec(s: Seq<u8>) -> Option<u16> {
    let digits = unsigned_digits(s);
    if digits.len() > 0 && all_digits(digits) && decimal(digits) <= u16::MAX {
        Some(decimal(digits) as u16)
    } else {
        None
    }
}

/// The prefix of a speed line.
pub open spec fn speed_prefix() -> Seq<u8> {
    seq![0x73u8, 0x70, 0x65, 0x65, 0x64, 0x3D]  // 's', 'p', 'e', 'e', 'd', '='
}

/// The settings after one line; `None` for a speed line whose value is not a
/// number that fits in 16 bits.
pub open spec fn apply_line(s: Settings, line: Seq<u8>, peers: Seq<Peer>) -> Option<Settings> {
    if line.len() == 0 {
        Some(s)
    } else {
        let speed = if line.len() >= 6 && line.subrange(0, 6) == speed_prefix() {
            parse_u16_spec(line.skip(6))
        } else {
            Some(s.speed)
        };
        match speed {
            None => None,
            Some(speed) => match binding(line, peers) {
                Some((key, source, input)) => Some(
                    Settings { speed, inputs: s.inputs.update(key, Some((source, input))) },
                ),
                None => Some(Settings { speed, ..s }),
            },
        }
    }
}

/// The index of the first newline at or after `from`, or the length.
pub open spec fn line_end(file: Seq<u8>, from: int) -> int
    decreases file.len() - from,
{
    if from >= file.len() {
        file.len() as int
    } else if file[from] == 0x0A {  // '\n'
        from
    } else {
        line_end(file, from + 1)
    }
}

pub proof fn lemma_line_end(file: Seq<u8>, from: int)
    requires
        0 <= from <= file.len(),
    ensures
        from <= line_end(file, from) <= file.len(),
        line_end(file, from) < file.len() ==> file[line_end(file, from)] == 0x0A,  // '\n'
        forall|k: int| from <= k < line_end(file, from) ==> file[k] != 0x0A,  // '\n'
    decreases file.len() - from,
{
    if from < file.len() && file[from] != 0x0A {  // '\n'
        lemma_line_end(file, from + 1);
    }
}

/// The settings after the lines of `file` from `start` on, each line ending
/// at a newline or at the end of the file, applied in order to `s`; `None`
/// as soon as one line is refused.
pub open spec fn settings_from(file: Seq<u8>, peers: Seq<Peer>, start: nat, s: Settings) -> Option<Settings>
    decreases file.len() - start,
{
    if start > file.len() {
        Some(s)
    } else {
        let end = line_end(file, start as int);
        match apply_line(s, file.subrange(start as int, end), peers) {
            None => None,
            Some(s2) => if end >= file.len() {
                Some(s2)
            } else {
                proof {
                    lemma_line_end(file, start as int);
                }
                settings_from(file, peers, (end + 1) as nat, s2)
            },
        }
    }
}

/// The settings that a configuration file gives, from the defaults.
pub open spec fn parse_config(file: Seq<u8>, peers: Seq<Peer>) -> Option<Settings> {
    settings_from(file, peers, 0, default_settings())
}

impl Default for Config {
    fn default() -> (r: Self)
        ensures
            r@ == default_settings(),
    {
        let r = Self {
            // 17 ticks with 60 FPS result in ~1MHz.
            speed: 17,
            inputs: [
                None,  // 0
                None,  // 1
                Some((Source::Combined, Input::U)),  // 2
                None,  // 3
                Some((Source::Combined, Input::L)),  // 4
                None,  // 5
                Some((Source::Combined, Input::R)),  // 6
                None,  // 7
                Some((Source::Combined, Input::D)),  // 8
                None,  // 9
                Some((Source::Combined, Input::S)),  // A
                Some((Source::Combined, Input::E)),  // B
                None,  // C
                None,  // D
                None,  // E
                None,  // F
            ],
        };
        assert(r@.inputs =~= default_settings().inputs);
        r
    }
}

impl Config {
    /// The settings that the configuration file `file` gives, with `peers`
    /// the peers online; `None` when a speed line holds no valid speed.
    pub fn load(file: &[u8], peers: &[Peer]) -> (r: Option<Config>)
        ensures
            match parse_config(file@, peers@) {
                None => r is None,
                Some(s) => r matches Some(c) && c@ == s,
            },
    {
        let mut config = Config::default();
        let mut start: usize = 0;
        loop
            invariant
                start <= file@.len(),
                parse_config(file@, peers@) == settings_from(file@, peers@, start as nat, config@),
            decreases file@.len() - start,
        {
            let mut end = start;
            while end < file.len() && file[end] != 0x0A  // '\n'
                invariant
                    start <= end <= file@.len(),
                    line_end(file@, start as int) == line_end(file@, end as int),
                decreases file@.len() - end,
            {
                end += 1;
            }
            proof {
                lemma_line_end(file@, start as int);
            }
            let line = &file[start..end];
            if !line.is_empty() {
                if line.len() >= 6 && line[0] == 0x73 && line[1] == 0x70 && line[2] == 0x65  // 's', 'p', 'e'
                    && line[3] == 0x65 && line[4] == 0x64 && line[5] == 0x3D {  // 'e', 'd', '='
                    assert(line@.subrange(0, 6) =~= speed_prefix());
                    let suffix = &line[6..line.len()];
                    assert(suffix@ =~= line@.skip(6));
                    match parse_u16(suffix) {
                        Some(speed) => {
                            config.speed = speed;
                        },
                        None => {
                            return None;
                        },
                    }
                } else {
                    assert(!(line@.len() >= 6 && line@.subrange(0, 6) == speed_prefix())) by {
                        if line@.len() >= 6 && line@.subrange(0, 6) == speed_prefix() {
                            assert(line@[0] == line@.subrange(0, 6)[0]);
                            assert(line@[1] == line@.subrange(0, 6)[1]);
                            assert(line@[2] == line@.subrange(0, 6)[2]);
                            assert(line@[3] == line@.subrange(0, 6)[3]);
                            assert(line@[4] == line@.subrange(0, 6)[4]);
                            assert(line@[5] == line@.subrange(0, 6)[5]);
                        }
                    }
                }
                match parse_input(line, peers) {
                    Some((idx, peer, input)) => {
                        config.inputs[idx] = Some((peer, input));
                    },
                    None => {},
                }
            }
            if end >= file.len() {
                return Some(config);
            }
            start = end + 1;
        }
    }
}

/// The key binding that `line` states, with `peers` the peers online.
fn parse_input(line: &[u8], peers: &[Peer]) -> (r: Option<(usize, Source, Input)>)
    ensures
        match binding(line@, peers@) {
            None => r is None,
            Some((key, source, input)) => r == Some((key as usize, source, input)) && key < 16,
        },
{
    if line.len() != 4 {
        return None;
    }
    let idx: usize = match line[0] {
        0x30 => 0,  // '0'
        0x31 => 1,  // '1'
        0x32 => 2,  // '2'
        0x33 => 3,  // '3'
        0x34 => 4,  // '4'
        0x35 => 5,  // '5'
        0x36 => 6,  // '6'
        0x37 => 7,  // '7'
        0x38 => 8,  // '8'
        0x39 => 9,  // '9'
        0x41 | 0x61 => 0xA,  // 'A', 'a'
        0x42 | 0x62 => 0xB,  // 'B', 'b'
        0x43 | 0x63 => 0xC,  // 'C', 'c'
        0x44 | 0x64 => 0xD,  // 'D', 'd'
        0x45 | 0x65 => 0xE,  // 'E', 'e'
        0x46 | 0x66 => 0xF,  // 'F', 'f'
        _ => {
            return None;
        },
    };
    if line[1] != 0x3D {  // '='
        return None;
    }
    let peer = match line[2] {
        0x31 => Source::Peer(*peers.first()?),  // '1'
        0x32 => Source::Peer(*peers.get(1)?),  // '2'
        0x33 => Source::Peer(*peers.get(2)?),  // '3'
        0x34 => Source::Peer(*peers.get(3)?),  // '4'
        0x53 => Source::Combined,  // 'S'
        _ => {
            return None;
        },
    };
    let input = match line[3] {
        0x4C => Input::L,  // 'L'
        0x52 => Input::R,  // 'R'
        0x55 => Input::U,  // 'U'
        0x44 => Input::D,  // 'D'
        0x53 => Input::S,  // 'S'
        0x45 => Input::E,  // 'E'
        0x57 => Input::W,  // 'W'
        0x4E => Input::N,  // 'N'
        _ => {
            return None;
        },
    };
    Some((idx, peer, input))
}

/// Decimal bytes to a 16-bit number, as `u16::from_str` reads them.
fn parse_u16(s: &[u8]) -> (r: Option<u16>)
    ensures
        r == parse_u16_spec(s@),
{
    let start: usize = if s.len() > 0 && s[0] == 0x2B { 1 } else { 0 };  // '+'
    let ghost digits = unsigned_digits(s@);
    assert(digits =~= s@.subrange(start as int, s@.len() as int));
    if start >= s.len() {
        return None;
    }
    let mut k = start;
    let mut acc: u32 = 0;
    while k < s.len()
        invariant
            start <= k <= s@.len(),
            digits == s@.subrange(start as int, s@.len() as int),
            digits == unsigned_digits(s@),
            forall|j: int| start <= j < k ==> is_digit(#[trigger] s@[j]),
            acc == decimal(s@.subrange(start as int, k as int)),
            acc <= u16::MAX,
        decreases s@.len() - k,
    {
        let c = s[k];
        if c < 0x30 || c > 0x39 {  // '0', '9'
            assert(digits[k - start] == s@[k as int]);
            assert(!is_digit(digits[k - start]));
            return None;
        }
        assert(s@.subrange(start as int, k + 1).drop_last() =~= s@.subrange(start as int, k as int));
        acc = acc * 10 + (c - 0x30) as u32;  // '0'
        if acc > 0xFFFF {
            proof {
                if all_digits(digits) {
                    lemma_decimal_prefix(digits, k + 1 - start);
                    assert(digits.subrange(0, k + 1 - start) =~= s@.subrange(start as int, k + 1));
                }
            }
            return None;
        }
        k += 1;
    }
    assert(digits =~= s@.subrange(start as int, k as int));
    Some(acc as u16)
}

/// The number that a string of digits spells is at least the one that its
/// first `j` digits spell.
proof fn lemma_decimal_prefix(t: Seq<u8>, j: int)
    requires
        0 <= j <= t.len(),
        forall|k: int| 0 <= k < t.len() ==> is_digit(#[trigger] t[k]),
    ensures
        decimal(t.subrange(0, j)) <= decimal(t),
    decreases t.len(),
{
    if j == t.len() {
        assert(t.subrange(0, j) =~= t);
    } else {
        let u = t.drop_last();
        assert forall|k: int| 0 <= k < u.len() implies is_digit(#[trigger] u[k]) by {
            assert(u[k] == t[k]);
        }
        lemma_decimal_prefix(u, j);
        assert(u.subrange(0, j) =~= t.subrange(0, j));
        assert(is_digit(t[t.len() - 1]));
    }
}

/// No byte of `s` is a newline.
pub open spec fn single_line(s: Seq<u8>) -> bool {
    forall|k: int| 0 <= k < s.len() ==> #[trigger] s[k] != 0x0A  // '\n'
}

/// A line of four bytes `k=pi` whose key `k` is a hexadecimal digit and whose
/// input `i` is a letter of `LRUDSEWN` binds key `k` (its value as a
/// hexadecimal digit) to the input that the letter names: for a peer digit
/// `p` from 1 to 4, of the `p`-th peer online (no binding if fewer are
/// online); for `S`, of all peers combined.
pub proof fn law_binding(line: Seq<u8>, peers: Seq<Peer>)
    requires
        line.len() == 4,
        line[1] == 0x3D,  // '='
        (0x30 <= line[0] <= 0x39 || 0x41 <= line[0] <= 0x46 || 0x61 <= line[0] <= 0x66),
        (line[3] == 0x4C || line[3] == 0x52 || line[3] == 0x55 || line[3] == 0x44 || line[3] == 0x53
            || line[3] == 0x45 || line[3] == 0x57 || line[3] == 0x4E),
    ensures
        ({
            let key: int = if line[0] <= 0x39 {
                line[0] - 0x30
            } else if line[0] <= 0x46 {
                line[0] - 0x41 + 10
            } else {
                line[0] - 0x61 + 10
            };
            let input = if line[3] == 0x4C {
                Input::L
            } else if line[3] == 0x52 {
                Input::R
            } else if line[3] == 0x55 {
                Input::U
            } else if line[3] == 0x44 {
                Input::D
            } else if line[3] == 0x53 {
                Input::S
            } else if line[3] == 0x45 {
                Input::E
            } else if line[3] == 0x57 {
                Input::W
            } else {
                Input::N
            };
            let p = line[2] as int - 0x31;
            &&& 0 <= key < 16
            &&& (0 <= p < 4 && p < peers.len()) ==> binding(line, peers) == Some((key, Source::Peer(peers[p]), input))
            &&& (0 <= p < 4 && p >= peers.len()) ==> binding(line, peers) is None
            &&& line[2] == 0x53 ==> binding(line, peers) == Some((key, Source::Combined, input))  // 'S'
            &&& !(0 <= p < 4 || line[2] == 0x53) ==> binding(line, peers) is None
        }),
{
}

proof fn lemma_line_end_single(file: Seq<u8>, from: int)
    requires
        0 <= from <= file.len(),
        single_line(file),
    ensures
        line_end(file, from) == file.len(),
    decreases file.len() - from,
{
    if from < file.len() {
        lemma_line_end_single(file, from + 1);
    }
}

/// A file of one non-empty line that is not a speed line gives the default
/// settings with, if the line is a binding, that key bound: the key's entry
/// becomes the binding and every other key keeps its default.
pub proof fn law_load_binding_line(line: Seq<u8>, peers: Seq<Peer>)
    requires
        line.len() > 0,
        single_line(line),
        !(line.len() >= 6 && line.subrange(0, 6) == speed_prefix()),
    ensures
        parse_config(line, peers) matches Some(s) && {
            &&& s.speed == default_settings().speed
            &&& s.inputs.len() == 16
            &&& binding(line, peers) is None ==> s.inputs == default_settings().inputs
            &&& binding(line, peers) matches Some((key, source, input)) ==> {
                &&& s.inputs[key] == Some((source, input))
                &&& forall|j: int| 0 <= j < 16 && j != key ==> #[trigger] s.inputs[j] == default_settings().inputs[j]
            }
        },
{
    lemma_line_end_single(line, 0);
    assert(line.subrange(0, line.len() as int) =~= line);
    if binding(line, peers) is Some {
        law_binding_key_range(line, peers);
    }
}

/// The key of a binding is one of the sixteen CHIP-8 keys.
pub proof fn law_binding_key_range(line: Seq<u8>, peers: Seq<Peer>)
    ensures
        binding(line, peers) matches Some((key, _, _)) ==> 0 <= key < 16,
{
}

/// A file of one speed line `speed=s` gives the default settings with the
/// speed that `s` spells, or nothing when `s` spells no 16-bit number.
pub proof fn law_load_speed_line(digits: Seq<u8>, peers: Seq<Peer>)
    requires
        single_line(digits),
    ensures
        ({
            let file = speed_prefix() + digits;
            match parse_u16_spec(digits) {
                None => parse_config(file, peers) is None,
                Some(v) => parse_config(file, peers) matches Some(s) && s.speed == v
                    && s.inputs == default_settings().inputs,
            }
        }),
{
    let file = speed_prefix() + digits;
    assert(single_line(file)) by {
        assert forall|k: int| 0 <= k < file.len() implies #[trigger] file[k] != 0x0A by {
            if k >= 6 {
                assert(file[k] == digits[k - 6]);
            }
        }
    }
    lemma_line_end_single(file, 0);
    assert(file.subrange(0, file.len() as int) =~= file);
    assert(file.subrange(0, 6) =~= speed_prefix());
    assert(file.skip(6) =~= digits);
}

/// Reading a number digit by digit: a single digit is its own value, and one
/// more digit multiplies the value by ten and adds the digit, failing once the
/// result passes 65535. A leading `+` changes nothing.
pub proof fn law_parse_u16_digits(s: Seq<u8>, c: u8)
    requires
        0x30 <= c <= 0x39,
    ensures
        parse_u16_spec(seq![c]) == Some((c - 0x30) as u16),
        !(s.len() > 0 && s[0] == 0x2B) ==> (parse_u16_spec(s) matches Some(v) ==> parse_u16_spec(s.push(c)) == (
        if 10 * v + (c - 0x30) <= 0xFFFF {
            Some((10 * v + (c - 0x30)) as u16)
        } else {
            None
        })),
        s.len() > 0 && s[0] != 0x2B ==> parse_u16_spec(seq![0x2Bu8] + s) == parse_u16_spec(s),
{
    assert(seq![c].drop_last() =~= Seq::<u8>::empty());
    assert(unsigned_digits(seq![c]) =~= seq![c]);
    assert(all_digits(seq![c]));
    assert(decimal(Seq::<u8>::empty()) == 0);
    assert(seq![c].last() == c);
    assert(decimal(seq![c]) == c - 0x30);
    assert((seq![0x2Bu8] + s).drop_first() =~= s);
    if parse_u16_spec(s) is Some && !(s.len() > 0 && s[0] == 0x2B) {
        assert(s.push(c).drop_last() =~= s);
        assert(unsigned_digits(s.push(c)) =~= s.push(c));
        assert forall|k: int| 0 <= k < s.push(c).len() implies is_digit(#[trigger] s.push(c)[k]) by {
            if k < s.len() {
                assert(s.push(c)[k] == s[k]);
            }
        }
    }
}

/// Without a configuration file, 17 instructions run per update and the
/// keys 2, 4, 6 and 8 read up, left, right and down on the pad and A and B
/// the buttons S and E, each of all peers combined; no other key is bound.
pub proof fn law_default_settings()
    ensures
        default_settings().speed == 17,
        default_settings().inputs.len() == 16,
        default_settings().inputs[2] == Some((Source::Combined, Input::U)),
        default_settings().inputs[4] == Some((Source::Combined, Input::L)),
        default_settings().inputs[6] == Some((Source::Combined, Input::R)),
        default_settings().inputs[8] == Some((Source::Combined, Input::D)),
        default_settings().inputs[10] == Some((Source::Combined, Input::S)),
        default_settings().inputs[11] == Some((Source::Combined, Input::E)),
        forall|k: int|
            0 <= k < 16 && k != 2 && k != 4 && k != 6 && k != 8 && k != 10 && k != 11
                ==> #[trigger] default_settings().inputs[k] is None,
{
}

proof fn lemma_line_end_at(file: Seq<u8>, from: int, end: int)
    requires
        0 <= from <= end < file.len(),
        file[end] == 0x0A,  // '\n'
        forall|k: int| from <= k < end ==> #[trigger] file[k] != 0x0A,
    ensures
        line_end(file, from) == end,
    decreases end - from,
{
    if from < end {
        lemma_line_end_at(file, from + 1, end);
    }
}

/// Lines apply in order: when two lines bind the same key, the second one's
/// binding is the one that holds.
pub proof fn law_later_binding_wins(first: Seq<u8>, second: Seq<u8>, peers: Seq<Peer>)
    requires
        single_line(first),
        single_line(second),
        binding(first, peers) is Some,
        binding(second, peers) is Some,
        binding(first, peers).unwrap().0 == binding(second, peers).unwrap().0,
    ensures
        ({
            let file = first + seq![0x0Au8] + second;
            let (key, source, input) = binding(second, peers).unwrap();
            parse_config(file, peers) matches Some(s) && s.inputs[key] == Some((source, input))
        }),
{
    let file = first + seq![0x0Au8] + second;
    let n = first.len() as int;
    assert forall|k: int| 0 <= k < n implies #[trigger] file[k] != 0x0A by {
        assert(file[k] == first[k]);
    }
    lemma_line_end_at(file, 0, n);
    assert(file.subrange(0, n) =~= first);
    law_load_binding_line(first, peers);
    law_binding_key_range(first, peers);
    let s1 = apply_line(default_settings(), first, peers).unwrap();
    assert(file.len() == n + 1 + second.len());
    assert(single_line(file.subrange(n + 1, file.len() as int))) by {
        assert(file.subrange(n + 1, file.len() as int) =~= second);
    }
    assert(file.subrange(n + 1, file.len() as int) =~= second);
    lemma_line_end_single(file.subrange(n + 1, file.len() as int), 0);
    assert forall|k: int| n + 1 <= k < file.len() implies #[trigger] file[k] != 0x0A by {
        assert(file[k] == second[k - n - 1]);
    }
    lemma_line_end_tail(file, n + 1);
    assert(settings_from(file, peers, 0, default_settings()) == settings_from(file, peers, (n + 1) as nat, s1));
}

proof fn lemma_line_end_tail(file: Seq<u8>, from: int)
    requires
        0 <= from <= file.len(),
        forall|k: int| from <= k < file.len() ==> #[trigger] file[k] != 0x0A,
    ensures
        line_end(file, from) == file.len(),
    decreases file.len() - from,
{
    if from < file.len() {
        lemma_line_end_tail(file, from + 1);
    }
}

} // verus!
