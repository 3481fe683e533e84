//! The settings of the server, read from lines of the form `name = value`.
//!
//! A line counts when it has exactly one `=`; name and value are taken
//! without the white space around them.  A line with an unknown name, or with
//! a value that cannot be read as the setting's type, changes nothing.  Where
//! a name comes twice the later line wins.
//!
//! Each of the two sweeps has a flag.  The settings of a server, which
//! `from_text` reads, have a sweep switched on unless a line switches it off.

use crate::utils::text::{
    chars_are, from_chars, parse_decimal, parse_unsigned, split, split_chars, texts, to_chars,
    trim, trim_chars,
};
use vstd::prelude::*;

verus! {

/// The settings.
#[derive(Debug)]
pub struct Config {
    pub bind: String,
    pub port: u16,
    pub snapshot_file_path: String,
    pub snapshot_scan_range_interval: u64,
    pub idle_timeout_check_enable: bool,
    pub idle_scan_range_interval: u64,
    pub periodic_timeout_check_enable: bool,
    pub periodic_scan_range_interval: u64,
}

/// What the settings hold, as plain values.
pub struct ConfigView {
    pub bind: Seq<char>,
    pub port: u16,
    pub snapshot_file_path: Seq<char>,
    pub snapshot_scan_range_interval: u64,
    pub idle_timeout_check_enable: bool,
    pub idle_scan_range_interval: u64,
    pub periodic_timeout_check_enable: bool,
    pub periodic_scan_range_interval: u64,
}

impl View for Config {
    type V = ConfigView;

    open spec fn view(&self) -> ConfigView {
        ConfigView {
            bind: self.bind@,
            port: self.port,
            snapshot_file_path: self.snapshot_file_path@,
            snapshot_scan_range_interval: self.snapshot_scan_range_interval,
            idle_timeout_check_enable: self.idle_timeout_check_enable,
            idle_scan_range_interval: self.idle_scan_range_interval,
            periodic_timeout_check_enable: self.periodic_timeout_check_enable,
            periodic_scan_range_interval: self.periodic_scan_range_interval,
        }
    }
}

/// The settings before any line has been read: empty texts, zeros, and both
/// sweeps switched off.
pub open spec fn blank() -> ConfigView {
    ConfigView {
        bind: Seq::<char>::empty(),
        port: 0,
        snapshot_file_path: Seq::<char>::empty(),
        snapshot_scan_range_interval: 0,
        idle_timeout_check_enable: false,
        idle_scan_range_interval: 0,
        periodic_timeout_check_enable: false,
        periodic_scan_range_interval: 0,
    }
}

/// The truth value that `text` spells: `true` or `false`, and nothing else.
pub open spec fn parse_flag(text: Seq<char>) -> Option<bool> {
    if text == "true"@ {
        Some(true)
    } else if text == "false"@ {
        Some(false)
    } else {
        None
    }
}

/// The number that `text` spells, if it is one and fits in 64 bits, else
/// `current`.
pub open spec fn number_or(text: Seq<char>, current: u64) -> u64 {
    match parse_unsigned(text, u64::MAX as nat) {
        Some(n) => n as u64,
        None => current,
    }
}

/// The port that `text` spells, if it is a number up to 65535, else
/// `current`.
pub open spec fn port_or(text: Seq<char>, current: u16) -> u16 {
    match parse_unsigned(text, u16::MAX as nat) {
        Some(n) => n as u16,
        None => current,
    }
}

/// The truth value that `text` spells, if it spells one, else `current`.
pub open spec fn flag_or(text: Seq<char>, current: bool) -> bool {
    match parse_flag(text) {
        Some(b) => b,
        None => current,
    }
}

/// The settings `c` after `value` has been given to the setting `name`.
pub open spec fn with_setting(c: ConfigView, name: Seq<char>, value: Seq<char>) -> ConfigView {
    if name == "bind"@ {
        ConfigView { bind: value, ..c }
    } else if name == "port"@ {
        ConfigView { port: port_or(value, c.port), ..c }
    } else if name == "snapshot_file_path"@ {
        ConfigView { snapshot_file_path: value, ..c }
    } else if name == "snapshot_scan_range_interval"@ {
        ConfigView {
            snapshot_scan_range_interval: number_or(value, c.snapshot_scan_range_interval),
            ..c
        }
    } else if name == "idle_timeout_check_enable"@ {
        ConfigView { idle_timeout_check_enable: flag_or(value, c.idle_timeout_check_enable), ..c }
    } else if name == "idle_scan_range_interval"@ {
        ConfigView { idle_scan_range_interval: number_or(value, c.idle_scan_range_interval), ..c }
    } else if name == "periodic_timeout_check_enable"@ {
        ConfigView {
            periodic_timeout_check_enable: flag_or(value, c.periodic_timeout_check_enable),
            ..c
        }
    } else if name == "periodic_scan_range_interval"@ {
        ConfigView {
            periodic_scan_range_interval: number_or(value, c.periodic_scan_range_interval),
            ..c
        }
    } else {
        c
    }
}

/// The settings `c` after the line `line` has been read.
pub open spec fn with_line(c: ConfigView, line: Seq<char>) -> ConfigView {
    let parts = split(line, '=');
    if parts.len() == 2 {
        with_setting(c, trim(parts[0]), trim(parts[1]))
    } else {
        c
    }
}

/// The settings `c` after the lines `lines` have been read, first to last.
pub open spec fn with_lines(c: ConfigView, lines: Seq<Seq<char>>) -> ConfigView
    decreases lines.len(),
{
    if lines.len() == 0 {
        c
    } else {
        with_line(with_lines(c, lines.drop_last()), lines.last())
    }
}

/// The settings that the text `content` gives on top of the blank settings.
pub open spec fn parsed(content: Seq<char>) -> ConfigView {
    with_lines(blank(), split(content, '\n'))
}

/// The settings `c` with both sweeps switched on.
pub open spec fn sweeps_on(c: ConfigView) -> ConfigView {
    ConfigView { idle_timeout_check_enable: true, periodic_timeout_check_enable: true, ..c }
}

/// The settings of a server whose settings text is `content`: the lines are
/// read on top of blank settings with both sweeps on, and the gaps are filled
/// with defaults.  So a flag that the text gives has the value that the text
/// gives it last, and a flag that the text does not give is on.
pub open spec fn settings_of(content: Seq<char>) -> ConfigView {
    with_defaults(with_lines(sweeps_on(blank()), split(content, '\n')))
}

/// The settings `c` with every gap filled: an empty address, a zero port, an
/// empty path and a zero interval get their defaults.  The flags of the two
/// sweeps stay as they are.
pub open spec fn with_defaults(c: ConfigView) -> ConfigView {
    ConfigView {
        bind: if c.bind.len() == 0 {
            "0.0.0.0"@
        } else {
            c.bind
        },
        port: if c.port == 0 {
            5757
        } else {
            c.port
        },
        snapshot_file_path: if c.snapshot_file_path.len() == 0 {
            "./data.lsdb"@
        } else {
            c.snapshot_file_path
        },
        snapshot_scan_range_interval: if c.snapshot_scan_range_interval == 0 {
            10
        } else {
            c.snapshot_scan_range_interval
        },
        idle_timeout_check_enable: c.idle_timeout_check_enable,
        idle_scan_range_interval: if c.idle_scan_range_interval == 0 {
            10
        } else {
            c.idle_scan_range_interval
        },
        periodic_timeout_check_enable: c.periodic_timeout_check_enable,
        periodic_scan_range_interval: if c.periodic_scan_range_interval == 0 {
            10
        } else {
            c.periodic_scan_range_interval
        },
    }
}

impl Default for Config {
    fn default() -> (config: Config)
        ensures
            config@ == blank(),
    {
        Config {
            bind: String::new(),
            port: 0,
            snapshot_file_path: String::new(),
            snapshot_scan_range_interval: 0,
            idle_timeout_check_enable: false,
            idle_scan_range_interval: 0,
            periodic_timeout_check_enable: false,
            periodic_scan_range_interval: 0,
        }
    }
}

/// The truth value that `text` spells.
fn read_flag(text: &Vec<char>, current: bool) -> (flag: bool)
    ensures
        flag == flag_or(text@, current),
{
    if chars_are(text, "true") {
        true
    } else if chars_are(text, "false") {
        false
    } else {
        current
    }
}

/// The number that `text` spells.
fn read_number(text: &Vec<char>, current: u64) -> (number: u64)
    ensures
        number == number_or(text@, current),
{
    match parse_decimal(text) {
        Some(n) => n,
        None => current,
    }
}

/// The port that `text` spells.
fn read_port(text: &Vec<char>, current: u16) -> (port: u16)
    ensures
        port == port_or(text@, current),
{
    match parse_decimal(text) {
        Some(n) => if n <= 65535 {
            n as u16
        } else {
            current
        },
        None => current,
    }
}

impl Config {
    /// Gives `value` to the setting `name`.
    fn apply_setting(&mut self, name: &Vec<char>, value: &Vec<char>)
        ensures
            final(self)@ == with_setting(old(self)@, name@, value@),
    {
        if chars_are(name, "bind") {
            self.bind = from_chars(value);
        } else if chars_are(name, "port") {
            self.port = read_port(value, self.port);
        } else if chars_are(name, "snapshot_file_path") {
            self.snapshot_file_path = from_chars(value);
        } else if chars_are(name, "snapshot_scan_range_interval") {
            self.snapshot_scan_range_interval = read_number(
                value,
                self.snapshot_scan_range_interval,
            );
        } else if chars_are(name, "idle_timeout_check_enable") {
            self.idle_timeout_check_enable = read_flag(value, self.idle_timeout_check_enable);
        } else if chars_are(name, "idle_scan_range_interval") {
            self.idle_scan_range_interval = read_number(value, self.idle_scan_range_interval);
        } else if chars_are(name, "periodic_timeout_check_enable") {
            self.periodic_timeout_check_enable = read_flag(
                value,
                self.periodic_timeout_check_enable,
            );
        } else if chars_are(name, "periodic_scan_range_interval") {
            self.periodic_scan_range_interval = read_number(
                value,
                self.periodic_scan_range_interval,
            );
        }
    }

    /// The settings `start` after the lines of `content` have been read.
    fn read_lines(start: Config, content: &str) -> (config: Config)
        ensures
            config@ == with_lines(start@, split(content@, '\n')),
    {
        let mut config = start;
        let chars = to_chars(content);
        let lines = split_chars(&chars, '\n');
        let ghost all = split(content@, '\n');
        let mut i: usize = 0;
        assert(all.take(0) == Seq::<Seq<char>>::empty());
        while i < lines.len()
            invariant
                i <= lines.len(),
                all == split(content@, '\n'),
                texts(lines@) == all,
                config@ == with_lines(start@, all.take(i as int)),
            decreases lines.len() - i,
        {
            assert(texts(lines@)[i as int] == lines@[i as int]@);
            let parts = split_chars(&lines[i], '=');
            assert(texts(parts@).len() == parts@.len());
            if parts.len() == 2 {
                assert(texts(parts@)[0] == parts@[0]@);
                assert(texts(parts@)[1] == parts@[1]@);
                let name = trim_chars(&parts[0]);
                let value = trim_chars(&parts[1]);
                config.apply_setting(&name, &value);
            }
            proof {
                assert(all.take(i + 1).drop_last() == all.take(i as int));
                assert(all.take(i + 1).last() == all[i as int]);
            }
            i += 1;
        }
        assert(all.take(i as int) == all);
        config
    }

    /// The settings that the text `content` gives on top of the blank
    /// settings, before defaults.  A flag that the text does not give is off.
    pub fn parse_config(content: &str) -> (config: Config)
        ensures
            config@ == parsed(content@),
    {
        Config::read_lines(Config::default(), content)
    }

    /// Fills the gaps of the settings with defaults.  The flags of the two
    /// sweeps stay as they are.
    pub fn apply_defaults(&mut self)
        ensures
            final(self)@ == with_defaults(old(self)@),
    {
        if self.bind.as_str().unicode_len() == 0 {
            self.bind = "0.0.0.0".to_owned();
        }
        if self.port == 0 {
            self.port = 5757;
        }
        if self.snapshot_file_path.as_str().unicode_len() == 0 {
            self.snapshot_file_path = "./data.lsdb".to_owned();
        }
        if self.snapshot_scan_range_interval == 0 {
            self.snapshot_scan_range_interval = 10;
        }
        if self.idle_scan_range_interval == 0 {
            self.idle_scan_range_interval = 10;
        }
        if self.periodic_scan_range_interval == 0 {
            self.periodic_scan_range_interval = 10;
        }
    }

    /// The settings of a server whose settings text is `content`.  A sweep
    /// is on unless the text switches it off; every other gap is filled with
    /// its default.
    pub fn from_text(content: &str) -> (config: Config)
        ensures
            config@ == settings_of(content@),
    {
        let mut start = Config::default();
        start.idle_timeout_check_enable = true;
        start.periodic_timeout_check_enable = true;
        let mut config = Config::read_lines(start, content);
        config.apply_defaults();
        config
    }
}

} // verus!
