use vstd::prelude::*;

use crate::position::{chars_of, parse_number, piece_value};
use crate::seats::{ConfigError, SEAT};

verus! {

/// The port of the live-view session when none is given.
pub const GUI_PORT: u32 = 52001;

/// What a replay run is configured with, as plain text and numbers.
pub struct AppOptions {
    pub file_path: Seq<char>,
    pub skip: Seq<char>,
    pub gui_port: u32,
    pub debug: bool,
    pub names: Seq<Seq<char>>,
}

pub open spec fn default_options() -> AppOptions {
    AppOptions {
        file_path: Seq::empty(),
        skip: Seq::empty(),
        gui_port: GUI_PORT,
        debug: false,
        names: seq![Seq::empty(), Seq::empty(), Seq::empty(), Seq::empty()],
    }
}

/// The port a text gives, if it is a number that fits in 32 bits.
pub open spec fn port_value(s: Seq<char>) -> Option<u32> {
    match piece_value(s) {
        Some(v) => if v <= u32::MAX {
            Some(v as u32)
        } else {
            None
        },
        None => None,
    }
}

/// The seat that an option names an agent for (`-0` to `-3`).
pub open spec fn seat_option(a: Seq<char>) -> Option<int> {
    if a == "-0"@ {
        Some(0)
    } else if a == "-1"@ {
        Some(1)
    } else if a == "-2"@ {
        Some(2)
    } else if a == "-3"@ {
        Some(3)
    } else {
        None
    }
}

pub open spec fn takes_value(a: Seq<char>) -> bool {
    a == "-f"@ || a == "-s"@ || a == "-gui-port"@ || seat_option(a) is Some
}

/// The options that `args[i..]` give on top of `st`: `-f` the input path, `-s`
/// the skip position, `-gui-port` the port, `-d` debug output, `-0` to `-3`
/// the agent of a seat. An input path must be given.
pub open spec fn read_options(args: Seq<Seq<char>>, i: int, st: AppOptions) -> Result<
    AppOptions,
    ConfigError,
>
    decreases args.len() - i,
{
    if i < 0 || i >= args.len() {
        if st.file_path.len() == 0 {
            Err(ConfigError::NoInputFile)
        } else {
            Ok(st)
        }
    } else {
        let a = args[i];
        if a == "-d"@ {
            read_options(args, i + 1, AppOptions { debug: true, ..st })
        } else if !takes_value(a) {
            Err(ConfigError::UnknownOption)
        } else if i + 1 >= args.len() {
            Err(ConfigError::MissingValue)
        } else {
            let v = args[i + 1];
            if a == "-f"@ {
                read_options(args, i + 2, AppOptions { file_path: v, ..st })
            } else if a == "-s"@ {
                read_options(args, i + 2, AppOptions { skip: v, ..st })
            } else if a == "-gui-port"@ {
                match port_value(v) {
                    Some(p) => read_options(args, i + 2, AppOptions { gui_port: p, ..st }),
                    None => Err(ConfigError::InvalidPort),
                }
            } else {
                read_options(
                    args,
                    i + 2,
                    AppOptions { names: st.names.update(seat_option(a)->Some_0, v), ..st },
                )
            }
        }
    }
}

/// A replay run's configuration.
pub struct ReplayApp {
    pub file_path: String,
    pub skip: String,
    pub gui_port: u32,
    pub debug: bool,
    pub names: Vec<String>,
}

fn is_option(arg: &String, name: &str) -> (r: bool)
    ensures
        r == (arg@ == name@),
{
    *arg == name.to_owned()
}

fn parse_port(s: &String) -> (r: Option<u32>)
    ensures
        r == port_value(s@),
{
    let chars = chars_of(s.as_str());
    match parse_number(chars.as_slice()) {
        Some(v) => if v as u128 <= u32::MAX as u128 {
            Some(v as u32)
        } else {
            None
        },
        None => None,
    }
}

impl ReplayApp {
    pub open spec fn options(&self) -> AppOptions {
        AppOptions {
            file_path: self.file_path@,
            skip: self.skip@,
            gui_port: self.gui_port,
            debug: self.debug,
            names: self.names@.map_values(|n: String| n@),
        }
    }

    /// Reads the configuration from the command-line arguments (without the
    /// program name).
    pub fn new(args: Vec<String>) -> (r: Result<ReplayApp, ConfigError>)
        ensures
            match r {
                Ok(app) => read_options(args@.map_values(|s: String| s@), 0, default_options())
                    == Ok::<AppOptions, ConfigError>(app.options()) && app.names@.len() == SEAT,
                Err(e) => read_options(args@.map_values(|s: String| s@), 0, default_options())
                    == Err::<AppOptions, ConfigError>(e),
            },
    {
        let ghost argv = args@.map_values(|s: String| s@);
        let mut app = ReplayApp {
            file_path: String::new(),
            skip: String::new(),
            gui_port: GUI_PORT,
            debug: false,
            names: vec![String::new(), String::new(), String::new(), String::new()],
        };
        assert(app.options().names =~= default_options().names);
        let n = args.len();
        let mut i: usize = 0;
        while i < n
            invariant
                i <= n,
                n == args@.len(),
                argv == args@.map_values(|s: String| s@),
                app.names@.len() == SEAT,
                read_options(argv, 0, default_options()) == read_options(argv, i as int, app.options()),
            decreases n - i,
        {
            let a = &args[i];
            assert(argv[i as int] == a@);
            if is_option(a, "-d") {
                app.debug = true;
                i = i + 1;
                continue;
            }
            let seat: Option<usize> = if is_option(a, "-0") {
                Some(0)
            } else if is_option(a, "-1") {
                Some(1)
            } else if is_option(a, "-2") {
                Some(2)
            } else if is_option(a, "-3") {
                Some(3)
            } else {
                None
            };
            let f = is_option(a, "-f");
            let s = is_option(a, "-s");
            let g = is_option(a, "-gui-port");
            if !f && !s && !g && seat.is_none() {
                return Err(ConfigError::UnknownOption);
            }
            if i + 1 >= n {
                return Err(ConfigError::MissingValue);
            }
            let v = args[i + 1].clone();
            assert(argv[i + 1] == v@);
            if f {
                app.file_path = v;
            } else if s {
                app.skip = v;
            } else if g {
                match parse_port(&v) {
                    Some(p) => app.gui_port = p,
                    None => return Err(ConfigError::InvalidPort),
                }
            } else {
                let k = seat.unwrap();
                let ghost before = app.options();
                app.names.set(k, v);
                assert(app.options().names =~= before.names.update(k as int, argv[i + 1]));
            }
            i = i + 2;
        }
        if app.file_path.as_str().is_empty() {
            return Err(ConfigError::NoInputFile);
        }
        Ok(app)
    }
}

} // verus!
