//! The configuration file `ia-get.ini`.

use vstd::prelude::*;

use crate::error::IaGetError;
use crate::numbers;
use crate::text;

verus! {

/// Runtime settings.
#[derive(Debug, Clone, PartialEq, Eq)]
pub struct Config {
    /// Maximum download speed in KB/s. A negative number means unlimited.
    pub max_bandwidth_kbps: i64,
    /// Whether to download multiple files in parallel.
    pub multithreading: bool,
    /// Number of concurrent downloads when multithreading is enabled.
    pub thread_count: u32,
}

/// The settings that hold where the file says nothing else.
pub open spec fn default_config() -> Config {
    Config { max_bandwidth_kbps: -1i64 as i64, multithreading: false, thread_count: 4 }
}

impl Default for Config {
    fn default() -> (r: Self)
        ensures
            r == default_config(),
    {
        Config { max_bandwidth_kbps: -1, multithreading: false, thread_count: 4 }
    }
}

// ---------------------------------------------------------------------------
// What the file means
// ---------------------------------------------------------------------------

/// A line without its comment and without outer white space.
pub open spec fn line_content(line: Seq<char>) -> Seq<char> {
    text::trimmed(line.take(text::first_index(line, '#')))
}

/// What stands before and behind the first `sep`, if there is one.
pub open spec fn split_once(s: Seq<char>, sep: char) -> Option<(Seq<char>, Seq<char>)> {
    let i = text::first_index(s, sep);
    if i < s.len() {
        Some((s.take(i), s.skip(i + 1)))
    } else {
        None
    }
}

/// The key and the value of a line: what stands before and behind its first `=`,
/// or, where it has none, its first `:`.
pub open spec fn key_value(line: Seq<char>) -> Option<(Seq<char>, Seq<char>)> {
    match split_once(line_content(line), '=') {
        Some(pair) => Some(pair),
        None => split_once(line_content(line), ':'),
    }
}

/// The settings that a line can change.
pub enum Key {
    Bandwidth,
    Multithreading,
    Threads,
    Unknown,
}

/// The setting that a key names, in any case and with any outer white space.
pub open spec fn key_of(key: Seq<char>) -> Key {
    let name = text::lower(text::trimmed(key));
    if name == "maxbandwidth"@ || name == "max_bandwidth"@ {
        Key::Bandwidth
    } else if name == "multithreading"@ || name == "multi_threading"@ {
        Key::Multithreading
    } else if name == "threads"@ || name == "thread_count"@ {
        Key::Threads
    } else {
        Key::Unknown
    }
}

/// The truth value that a word stands for, in any case.
pub open spec fn bool_value(word: Seq<char>) -> Option<bool> {
    let w = text::lower(word);
    if w == "true"@ || w == "yes"@ || w == "1"@ || w == "on"@ {
        Some(true)
    } else if w == "false"@ || w == "no"@ || w == "0"@ || w == "off"@ {
        Some(false)
    } else {
        None
    }
}

/// The setting that a line changes.
pub open spec fn line_key(line: Seq<char>) -> Key {
    match key_value(line) {
        Some((key, value)) => key_of(key),
        None => Key::Unknown,
    }
}

/// What a line makes of the settings before it: other settings, or the message
/// of an error.
pub open spec fn apply_line(config: Config, line: Seq<char>) -> Result<Config, Seq<char>> {
    match key_value(line) {
        None => Ok(config),
        Some((key, value)) => match key_of(key) {
            Key::Bandwidth => match numbers::signed_number(text::trimmed(value)) {
                Some(n) => Ok(Config { max_bandwidth_kbps: n as i64, ..config }),
                None => Err("Invalid maxbandwidth value: "@ + value),
            },
            Key::Multithreading => match bool_value(text::trimmed(value)) {
                Some(b) => Ok(Config { multithreading: b, ..config }),
                None => Err("Invalid boolean value: "@ + text::trimmed(value)),
            },
            Key::Threads => match numbers::unsigned_number(
                text::trimmed(value),
                u32::MAX as nat,
            ) {
                Some(n) => if n == 0 {
                    Err("threads must be at least 1"@)
                } else {
                    Ok(Config { thread_count: n as u32, ..config })
                },
                None => Err("Invalid threads value: "@ + value),
            },
            Key::Unknown => Ok(config),
        },
    }
}

/// What the lines of a file make of the default settings. The first line that
/// is an error decides.
pub open spec fn apply_lines(lines: Seq<Seq<char>>) -> Result<Config, Seq<char>>
    decreases lines.len(),
{
    if lines.len() == 0 {
        Ok(default_config())
    } else {
        match apply_lines(lines.drop_last()) {
            Ok(config) => apply_line(config, lines.last()),
            Err(message) => Err(message),
        }
    }
}

// ---------------------------------------------------------------------------
// Reading the file
// ---------------------------------------------------------------------------

/// The text of `prefix` followed by `rest`.
fn message_of(prefix: &str, rest: &Vec<char>) -> (r: String)
    ensures
        r@ == prefix@ + rest@,
{
    let mut out = text::chars_of(prefix);
    text::extend(&mut out, rest);
    text::string_of(&out)
}

/// Reads a truth value.
pub fn parse_bool(value: &str) -> (r: Result<bool, IaGetError>)
    ensures
        match r {
            Ok(b) => bool_value(value@) == Some(b),
            Err(e) => bool_value(value@) is None && e is Config && e.message()
                == "Invalid boolean value: "@ + value@,
        },
{
    let chars = text::chars_of(value);
    let w = text::to_lower(&chars);
    if text::is_text(&w, "true") || text::is_text(&w, "yes") || text::is_text(&w, "1")
        || text::is_text(&w, "on") {
        Ok(true)
    } else if text::is_text(&w, "false") || text::is_text(&w, "no") || text::is_text(&w, "0")
        || text::is_text(&w, "off") {
        Ok(false)
    } else {
        Err(IaGetError::Config(message_of("Invalid boolean value: ", &chars)))
    }
}

/// Finds the setting that `key` names.
fn read_key(key: &Vec<char>) -> (r: Key)
    ensures
        r == key_of(key@),
{
    let inner = text::trim(key);
    let name = text::to_lower(&inner);
    if text::is_text(&name, "maxbandwidth") || text::is_text(&name, "max_bandwidth") {
        Key::Bandwidth
    } else if text::is_text(&name, "multithreading") || text::is_text(&name, "multi_threading") {
        Key::Multithreading
    } else if text::is_text(&name, "threads") || text::is_text(&name, "thread_count") {
        Key::Threads
    } else {
        Key::Unknown
    }
}

/// Parts a text at its first `sep`.
pub fn part_once(v: &Vec<char>, sep: char) -> (r: Option<(Vec<char>, Vec<char>)>)
    ensures
        match r {
            Some((a, b)) => split_once(v@, sep) == Some((a@, b@)),
            None => split_once(v@, sep) is None,
        },
{
    let i = text::find_char(v, sep);
    if i < v.len() {
        let a = text::part(v, 0, i);
        let b = text::part(v, i + 1, v.len());
        assert(a@ =~= v@.take(i as int));
        assert(b@ =~= v@.skip(i + 1));
        Some((a, b))
    } else {
        None
    }
}

/// Parts a line into key and value.
fn read_key_value(line: &Vec<char>) -> (r: Option<(Vec<char>, Vec<char>)>)
    ensures
        match r {
            Some((a, b)) => key_value(line@) == Some((a@, b@)),
            None => key_value(line@) is None,
        },
{
    let hash = text::find_char(line, '#');
    let code = text::part(line, 0, hash);
    assert(code@ =~= line@.take(hash as int));
    let content = text::trim(&code);
    match part_once(&content, '=') {
        Some(pair) => Some(pair),
        None => part_once(&content, ':'),
    }
}

/// Applies one line to the settings before it.
fn read_line(config: Config, line: &Vec<char>) -> (r: Result<Config, IaGetError>)
    ensures
        match r {
            Ok(c) => apply_line(config, line@) == Ok::<Config, Seq<char>>(c),
            Err(e) => e is Config && apply_line(config, line@) == Err::<Config, Seq<char>>(
                e.message(),
            ),
        },
{
    let (key, value) = match read_key_value(line) {
        Some(pair) => pair,
        None => {
            return Ok(config);
        },
    };
    let inner = text::trim(&value);
    match read_key(&key) {
        Key::Bandwidth => match numbers::parse_signed(&inner) {
            Some(n) => Ok(Config { max_bandwidth_kbps: n, ..config }),
            None => Err(IaGetError::Config(message_of("Invalid maxbandwidth value: ", &value))),
        },
        Key::Multithreading => {
            let word = text::string_of(&inner);
            match parse_bool(word.as_str()) {
                Ok(b) => Ok(Config { multithreading: b, ..config }),
                Err(e) => Err(e),
            }
        },
        Key::Threads => match numbers::parse_unsigned(&inner, 0xffff_ffff) {
            Some(n) => if n == 0 {
                Err(IaGetError::Config("threads must be at least 1".to_owned()))
            } else {
                Ok(Config { thread_count: n as u32, ..config })
            },
            None => Err(IaGetError::Config(message_of("Invalid threads value: ", &value))),
        },
        Key::Unknown => Ok(config),
    }
}

impl Config {
    /// Reads the settings from the content of a configuration file.
    pub fn parse(content: &str) -> (r: Result<Config, IaGetError>)
        ensures
            match r {
                Ok(c) => apply_lines(text::lines(content@)) == Ok::<Config, Seq<char>>(c),
                Err(e) => e is Config && apply_lines(text::lines(content@)) == Err::<
                    Config,
                    Seq<char>,
                >(e.message()),
            },
    {
        let chars = text::chars_of(content);
        let lines = text::lines_of(&chars);
        let ghost all = text::lines(content@);
        let mut config = Config::default();
        let mut i: usize = 0;
        while i < lines.len()
            invariant
                i <= lines.len(),
                all == text::char_texts(lines@),
                all == text::lines(content@),
                apply_lines(all.take(i as int)) == Ok::<Config, Seq<char>>(config),
            decreases lines.len() - i,
        {
            assert(all.take(i + 1).drop_last() =~= all.take(i as int));
            match read_line(config, &lines[i]) {
                Ok(c) => {
                    config = c;
                },
                Err(e) => {
                    proof {
                        lemma_error_stays(all, i + 1);
                    }
                    return Err(e);
                },
            }
            i = i + 1;
        }
        assert(all.take(i as int) =~= all);
        Ok(config)
    }

    /// Settles the settings from what was read of the configuration file: nothing
    /// where there is none, its content, or why it could not be read. A file that
    /// cannot be used leaves the defaults and a warning.
    pub fn load(file: Option<Result<String, IaGetError>>) -> (r: (Config, Option<String>))
        ensures
            match file {
                None => r.0 == default_config() && r.1 is None,
                Some(Ok(content)) => match apply_lines(text::lines(content@)) {
                    Ok(c) => r.0 == c && r.1 is None,
                    Err(message) => r.0 == default_config() && text::option_text(r.1) == Some(
                        load_warning(message),
                    ),
                },
                Some(Err(e)) => r.0 == default_config() && text::option_text(r.1) == Some(
                    load_warning(e.message()),
                ),
            },
    {
        match file {
            None => (Config::default(), None),
            Some(Ok(content)) => match Config::parse(content.as_str()) {
                Ok(config) => (config, None),
                Err(e) => (Config::default(), Some(warn(e.as_text()))),
            },
            Some(Err(e)) => (Config::default(), Some(warn(e.as_text()))),
        }
    }
}

/// What is said of a configuration file that cannot be used.
pub open spec fn load_warning(message: Seq<char>) -> Seq<char> {
    "Warning: could not load ia-get.ini ("@ + message + "), using defaults"@
}

/// Says that a configuration file cannot be used.
fn warn(message: &str) -> (r: String)
    ensures
        r@ == load_warning(message@),
{
    text::between("Warning: could not load ia-get.ini (", message, "), using defaults")
}

/// Behind an error nothing more is read.
proof fn lemma_error_stays(lines: Seq<Seq<char>>, k: int)
    requires
        0 <= k <= lines.len(),
        apply_lines(lines.take(k)) is Err,
    ensures
        apply_lines(lines) == apply_lines(lines.take(k)),
    decreases lines.len() - k,
{
    if k == lines.len() {
        assert(lines.take(k) =~= lines);
    } else {
        assert(lines.take(k + 1).drop_last() =~= lines.take(k));
        lemma_error_stays(lines, k + 1);
    }
}

// ---------------------------------------------------------------------------
// Where the file is
// ---------------------------------------------------------------------------

/// A path in the parts that are joined to make it.
#[derive(Debug, Clone, PartialEq, Eq)]
pub struct ConfigPath {
    pub parts: Vec<String>,
}

impl ConfigPath {
    /// The texts of the parts.
    pub open spec fn view(&self) -> Seq<Seq<char>> {
        text::texts(self.parts@)
    }
}

/// The places of the configuration file of a user, in the order in which they are
/// looked at: below the application data where that is known, then below the home
/// directory where that is known.
pub open spec fn user_paths(appdata: Option<Seq<char>>, home: Option<Seq<char>>) -> Seq<
    Seq<Seq<char>>,
> {
    let first = match appdata {
        Some(dir) => seq![seq![dir, "ia-get"@, "ia-get.ini"@]],
        None => Seq::empty(),
    };
    let second = match home {
        Some(dir) => seq![seq![dir, ".config"@, "ia-get"@, "ia-get.ini"@]],
        None => Seq::empty(),
    };
    first + second
}

/// The texts of some paths.
pub open spec fn path_texts(paths: Seq<ConfigPath>) -> Seq<Seq<Seq<char>>> {
    Seq::new(paths.len(), |i: int| paths[i]@)
}

/// Lists the places of the configuration file of the user, from the values of
/// `APPDATA` and `HOME`.
pub fn user_config_paths(appdata: Option<String>, home: Option<String>) -> (r: Vec<ConfigPath>)
    ensures
        path_texts(r@) == user_paths(text::option_text(appdata), text::option_text(home)),
{
    let mut paths: Vec<ConfigPath> = Vec::new();
    if let Some(dir) = appdata {
        let mut parts: Vec<String> = Vec::new();
        parts.push(dir);
        parts.push("ia-get".to_owned());
        parts.push("ia-get.ini".to_owned());
        let path = ConfigPath { parts };
        assert(path@ =~= seq![dir@, "ia-get"@, "ia-get.ini"@]);
        paths.push(path);
    }
    if let Some(dir) = home {
        let mut parts: Vec<String> = Vec::new();
        parts.push(dir);
        parts.push(".config".to_owned());
        parts.push("ia-get".to_owned());
        parts.push("ia-get.ini".to_owned());
        let path = ConfigPath { parts };
        assert(path@ =~= seq![dir@, ".config"@, "ia-get"@, "ia-get.ini"@]);
        paths.push(path);
    }
    assert(path_texts(paths@) =~= user_paths(text::option_text(appdata), text::option_text(home)));
    paths
}

/// The first of some places at which there is a file.
pub open spec fn first_file(places: Seq<(Seq<Seq<char>>, bool)>) -> Option<Seq<Seq<char>>>
    decreases places.len(),
{
    if places.len() == 0 {
        None
    } else if places[0].1 {
        Some(places[0].0)
    } else {
        first_file(places.drop_first())
    }
}

/// The configuration file that is used: the one in the current directory where it
/// is a file, else the first of the user's places at which there is one.
pub open spec fn located(local_is_file: bool, user: Seq<(Seq<Seq<char>>, bool)>) -> Option<
    Seq<Seq<char>>,
> {
    if local_is_file {
        Some(seq!["ia-get.ini"@])
    } else {
        first_file(user)
    }
}

/// The texts of some places, each with whether there is a file.
pub open spec fn place_texts(user: Seq<(ConfigPath, bool)>) -> Seq<(Seq<Seq<char>>, bool)> {
    Seq::new(user.len(), |i: int| (user[i].0@, user[i].1))
}

/// Chooses the configuration file. `user` holds the user's places, each with
/// whether there is a file.
pub fn locate_config_file(local_is_file: bool, user: Vec<(ConfigPath, bool)>) -> (r: Option<
    ConfigPath,
>)
    ensures
        match r {
            Some(path) => located(local_is_file, place_texts(user@)) == Some(path@),
            None => located(local_is_file, place_texts(user@)) is None,
        },
{
    if local_is_file {
        let mut parts: Vec<String> = Vec::new();
        parts.push("ia-get.ini".to_owned());
        let path = ConfigPath { parts };
        assert(path@ =~= seq!["ia-get.ini"@]);
        return Some(path);
    }
    let ghost places = place_texts(user@);
    let mut rest = user;
    while rest.len() > 0
        invariant
            first_file(place_texts(rest@)) == first_file(places),
            !local_is_file,
            places == place_texts(user@),
        decreases rest.len(),
    {
        let ghost before = place_texts(rest@);
        let (path, is_file) = rest.remove(0);
        assert(place_texts(rest@) =~= before.drop_first());
        if is_file {
            return Some(path);
        }
    }
    None
}

/// Every place is looked at: the configuration file of the home directory is used
/// where there is none in the current directory and none below the application
/// data, whether that is known or not.
pub proof fn law_home_is_looked_at_last(
    user: Seq<(Seq<Seq<char>>, bool)>,
    appdata: Option<Seq<char>>,
    home: Seq<char>,
)
    requires
        user.len() == user_paths(appdata, Some(home)).len(),
        forall|i: int|
            0 <= i < user.len() ==> (#[trigger] user[i]).0 == user_paths(appdata, Some(home))[i],
        user.last().1,
        forall|i: int| 0 <= i < user.len() - 1 ==> !(#[trigger] user[i]).1,
    ensures
        located(false, user) == Some(seq![home, ".config"@, "ia-get"@, "ia-get.ini"@]),
{
    reveal_with_fuel(first_file, 3);
    let n = user.len() as int;
    assert(user[n - 1].1);
    assert(user[n - 1].0 == seq![home, ".config"@, "ia-get"@, "ia-get.ini"@]);
    if n == 2 {
        assert(!user[0].1);
        assert(user.drop_first()[0] == user[1]);
    }
}

/// Nothing is used exactly where there is no file at any place.
pub proof fn law_some_file_is_used(local_is_file: bool, user: Seq<(Seq<Seq<char>>, bool)>)
    ensures
        located(local_is_file, user) is None <==> !local_is_file && forall|i: int|
            0 <= i < user.len() ==> !(#[trigger] user[i]).1,
    decreases user.len(),
{
    if user.len() > 0 && !local_is_file {
        let rest = user.drop_first();
        law_some_file_is_used(local_is_file, rest);
        assert(forall|i: int| 0 <= i < rest.len() ==> rest[i] == user[i + 1]);
        if forall|i: int| 0 <= i < rest.len() ==> !(#[trigger] rest[i]).1 {
            assert forall|i: int| 1 <= i < user.len() implies !(#[trigger] user[i]).1 by {
                assert(user[i] == rest[i - 1]);
            }
        }
        if !user[0].1 && forall|i: int| 0 <= i < user.len() ==> !(#[trigger] user[i]).1 {
            assert forall|i: int| 0 <= i < rest.len() implies !(#[trigger] rest[i]).1 by {
                assert(rest[i] == user[i + 1]);
            }
        }
    }
}

// ---------------------------------------------------------------------------
// Bandwidth
// ---------------------------------------------------------------------------

/// The maximum download rate in bytes per second, or `None` if unlimited.
pub fn max_bytes_per_second(max_bandwidth_kbps: i64) -> (r: Option<u64>)
    requires
        max_bandwidth_kbps * 1024 <= u64::MAX,
    ensures
        match r {
            Some(rate) => max_bandwidth_kbps >= 0 && rate == max_bandwidth_kbps * 1024,
            None => max_bandwidth_kbps < 0,
        },
{
    if max_bandwidth_kbps < 0 {
        None
    } else {
        Some(max_bandwidth_kbps as u64 * 1024)
    }
}

// ---------------------------------------------------------------------------
// Laws
// ---------------------------------------------------------------------------

/// A file without lines leaves the default settings: no limit, one download at a time,
/// and four threads where there are more.
pub proof fn law_empty_file_is_default()
    ensures
        apply_lines(text::lines(Seq::<char>::empty())) == Ok::<Config, Seq<char>>(default_config()),
        default_config().max_bandwidth_kbps == -1,
        !default_config().multithreading,
        default_config().thread_count == 4,
{
}

/// Settings that were read allow at least one download at a time.
pub proof fn law_threads_positive(lines: Seq<Seq<char>>)
    ensures
        apply_lines(lines) matches Ok(config) ==> config.thread_count >= 1,
    decreases lines.len(),
{
    if lines.len() > 0 {
        law_threads_positive(lines.drop_last());
    }
}

/// A line that names no setting (a comment, an empty line, an unknown key) can
/// stand anywhere and changes nothing.
pub proof fn law_other_lines_ignored(a: Seq<Seq<char>>, line: Seq<char>, b: Seq<Seq<char>>)
    requires
        line_key(line) is Unknown,
    ensures
        apply_lines(a + seq![line] + b) == apply_lines(a + b),
    decreases b.len(),
{
    let s = a + seq![line] + b;
    if b.len() == 0 {
        assert(s.drop_last() =~= a);
        assert(a + b =~= a);
    } else {
        law_other_lines_ignored(a, line, b.drop_last());
        assert(s.drop_last() =~= a + seq![line] + b.drop_last());
        assert((a + b).drop_last() =~= a + b.drop_last());
    }
}

/// A line that is only a comment names no setting.
pub proof fn law_comment_names_nothing(line: Seq<char>)
    requires
        line.len() > 0,
        line[0] == '#',
    ensures
        line_key(line) is Unknown,
{
    assert(text::first_index(line, '#') == 0);
    assert(line.take(0) =~= Seq::<char>::empty());
    assert(line_content(line) =~= Seq::<char>::empty());
}

/// Of several lines for one setting the last decides: lines behind it that name
/// other settings leave it as it is.
pub proof fn law_last_line_decides(a: Seq<Seq<char>>, line: Seq<char>, b: Seq<Seq<char>>)
    requires
        apply_lines(a + seq![line]) is Ok,
        apply_lines(a + seq![line] + b) is Ok,
        forall|i: int| 0 <= i < b.len() ==> line_key(#[trigger] b[i]) != line_key(line),
    ensures
        ({
            let early = apply_lines(a + seq![line])->Ok_0;
            let end = apply_lines(a + seq![line] + b)->Ok_0;
            match line_key(line) {
                Key::Bandwidth => end.max_bandwidth_kbps == early.max_bandwidth_kbps,
                Key::Multithreading => end.multithreading == early.multithreading,
                Key::Threads => end.thread_count == early.thread_count,
                Key::Unknown => true,
            }
        }),
    decreases b.len(),
{
    let s = a + seq![line] + b;
    if b.len() == 0 {
        assert(s =~= a + seq![line]);
    } else {
        let head = b.drop_last();
        assert(s.drop_last() =~= a + seq![line] + head);
        assert(line_key(b[b.len() - 1]) != line_key(line));
        assert forall|i: int| 0 <= i < head.len() implies line_key(#[trigger] head[i]) != line_key(
            line,
        ) by {
            assert(head[i] == b[i]);
        }
        law_last_line_decides(a, line, head);
    }
}

/// Whether some line names a setting.
pub open spec fn names(lines: Seq<Seq<char>>, key: Key) -> bool {
    exists|i: int| 0 <= i < lines.len() && line_key(#[trigger] lines[i]) == key
}

/// The settings of some lines laid over those of earlier ones: `second` where the
/// lines name the setting, else `first`.
pub open spec fn overlaid(first: Config, second: Config, lines: Seq<Seq<char>>) -> Config {
    Config {
        max_bandwidth_kbps: if names(lines, Key::Bandwidth) {
            second.max_bandwidth_kbps
        } else {
            first.max_bandwidth_kbps
        },
        multithreading: if names(lines, Key::Multithreading) {
            second.multithreading
        } else {
            first.multithreading
        },
        thread_count: if names(lines, Key::Threads) {
            second.thread_count
        } else {
            first.thread_count
        },
    }
}

/// What lines and further lines make of the settings, from what each of them make
/// alone: the first error of either, else the later settings over the earlier.
pub open spec fn combined(
    first: Result<Config, Seq<char>>,
    second: Result<Config, Seq<char>>,
    lines: Seq<Seq<char>>,
) -> Result<Config, Seq<char>> {
    match first {
        Err(message) => Err(message),
        Ok(a) => match second {
            Err(message) => Err(message),
            Ok(b) => Ok(overlaid(a, b, lines)),
        },
    }
}

/// One more line adds the setting that it names.
proof fn lemma_names_push(lines: Seq<Seq<char>>, key: Key)
    requires
        lines.len() > 0,
    ensures
        names(lines, key) == (names(lines.drop_last(), key) || line_key(lines.last()) == key),
{
    let head = lines.drop_last();
    if names(head, key) {
        let i = choose|i: int| 0 <= i < head.len() && line_key(#[trigger] head[i]) == key;
        assert(lines[i] == head[i]);
    }
    if line_key(lines.last()) == key {
        assert(line_key(lines[lines.len() - 1]) == key);
    }
    if names(lines, key) {
        let i = choose|i: int| 0 <= i < lines.len() && line_key(#[trigger] lines[i]) == key;
        if i < head.len() {
            assert(head[i] == lines[i]);
        }
    }
}

/// Lines behind others are read as their own settings over those of the others:
/// the error of the first comes first, then that of the second, and else each
/// setting is that of the second where they name it.
pub proof fn law_later_lines_lie_over_earlier_ones(a: Seq<Seq<char>>, b: Seq<Seq<char>>)
    ensures
        apply_lines(a + b) == combined(apply_lines(a), apply_lines(b), b),
    decreases b.len(),
{
    if b.len() == 0 {
        assert(a + b =~= a);
    } else {
        let head = b.drop_last();
        law_later_lines_lie_over_earlier_ones(a, head);
        assert((a + b).drop_last() =~= a + head);
        assert((a + b).last() == b.last());
        lemma_names_push(b, Key::Bandwidth);
        lemma_names_push(b, Key::Multithreading);
        lemma_names_push(b, Key::Threads);
    }
}

/// A carriage return at the end of a line does not matter to its content.
proof fn lemma_content_without_cr(line: Seq<char>)
    ensures
        line_content(text::without_cr(line)) == line_content(line),
{
    let short = text::without_cr(line);
    if line.len() > 0 && line.last() == '\r' {
        text::lemma_first_index_shape(short, '#');
        let i = text::first_index(short, '#');
        assert(line =~= short.push('\r'));
        if i < short.len() {
            assert forall|j: int| 0 <= j < i implies #[trigger] line[j] != '#' by {
                assert(line[j] == short[j]);
            }
            text::lemma_first_index(line, '#', i);
            assert(line.take(i) =~= short.take(i));
        } else {
            assert forall|j: int| 0 <= j < line.len() implies #[trigger] line[j] != '#' by {
                if j < short.len() {
                    assert(line[j] == short[j]);
                }
            }
            text::lemma_first_index(line, '#', line.len() as int);
            assert(line.take(line.len() as int) =~= line);
            assert(short.take(short.len() as int) =~= short);
            text::lemma_trimmed_push(short, '\r');
        }
    }
}

/// That the last line of a file is ended does not matter.
proof fn lemma_ended_lines(content: Seq<char>)
    ensures
        apply_lines(text::ended_lines(content)) == apply_lines(text::lines(content)),
{
    text::lemma_split_nonempty(content, '\n');
    let pieces = text::split(content, '\n');
    let ended = text::ended_lines(content);
    let lines = text::lines(content);
    let last = pieces.last();
    lemma_content_without_cr(last);
    assert(ended.last() == text::without_cr(last));
    if last.len() == 0 {
        assert(ended.drop_last() =~= lines);
        assert(last =~= Seq::<char>::empty());
        assert(last.take(0) =~= last);
        assert(line_content(last) =~= Seq::<char>::empty());
        assert(key_value(last) is None);
    } else {
        assert(ended.drop_last() =~= lines.drop_last());
        assert(lines.last() == last);
    }
}

/// A file that holds one content and, behind a line feed, another is read as the
/// settings of the second over those of the first. It is an error exactly where
/// one of them is, and that of the first comes first; else each setting is that of
/// the second where a line of it names the setting, and that of the first where
/// none does.
pub proof fn law_second_content_lies_over_the_first(a: Seq<char>, b: Seq<char>)
    ensures
        apply_lines(text::lines(a + "\n"@ + b)) == combined(
            apply_lines(text::lines(a)),
            apply_lines(text::lines(b)),
            text::lines(b),
        ),
{
    reveal_strlit("\n");
    assert("\n"@ =~= seq!['\n']);
    text::lemma_lines_concat(a, b);
    law_later_lines_lie_over_earlier_ones(text::ended_lines(a), text::lines(b));
    lemma_ended_lines(a);
}

/// A line of a key, an equals sign and a number sets the setting that the key names to
/// that number: every number of threads but 0, and every bandwidth. A number that
/// does not fit is an error.
pub proof fn law_lines_set_what_they_name(config: Config, n: nat)
    ensures
        1 <= n <= u32::MAX ==> apply_line(config, "threads="@ + numbers::decimal(n)) == Ok::<
            Config,
            Seq<char>,
        >((Config { thread_count: n as u32, ..config })),
        n <= i64::MAX ==> apply_line(config, "maxbandwidth="@ + numbers::decimal(n)) == Ok::<
            Config,
            Seq<char>,
        >((Config { max_bandwidth_kbps: n as i64, ..config })),
        n == 0 || n > u32::MAX ==> apply_line(config, "threads="@ + numbers::decimal(n)) is Err,
        n > i64::MAX ==> apply_line(config, "maxbandwidth="@ + numbers::decimal(n)) is Err,
        n == 0 ==> apply_line(config, "threads="@ + numbers::decimal(n)) == Err::<
            Config,
            Seq<char>,
        >("threads must be at least 1"@),
{
    reveal_strlit("threads=");
    reveal_strlit("maxbandwidth=");
    reveal_strlit("threads");
    reveal_strlit("thread_count");
    reveal_strlit("maxbandwidth");
    reveal_strlit("max_bandwidth");
    reveal_strlit("multithreading");
    reveal_strlit("multi_threading");
    let d = numbers::decimal(n);
    assert("threads="@ =~= "threads"@ + seq!['=']);
    assert("maxbandwidth="@ =~= "maxbandwidth"@ + seq!['=']);
    numbers::lemma_decimal_digits(n);
    numbers::law_decimal_reads_back(n, u32::MAX as nat);
    numbers::lemma_decimal_is_signed_number(n);
    assert(text::lower("threads"@) =~= "threads"@);
    assert(text::lower("maxbandwidth"@) =~= "maxbandwidth"@);
    lemma_plain_setting("threads"@, d);
    lemma_plain_setting("maxbandwidth"@, d);
    assert("threads"@.len() == 7);
    assert("maxbandwidth"@.len() == 12);
    assert("max_bandwidth"@.len() == 13);
    assert("multithreading"@.len() == 14);
    assert("multi_threading"@.len() == 15);
    assert("thread_count"@.len() == 12);
    assert("thread_count"@[0] == 't');
    assert("maxbandwidth"@[0] == 'm');
    assert(key_of("threads"@) is Threads);
    assert(key_of("maxbandwidth"@) is Bandwidth);
}

/// A key and a number with an equals sign between them are read as they stand.
proof fn lemma_plain_setting(key: Seq<char>, value: Seq<char>)
    requires
        key.len() > 0,
        value.len() > 0,
        forall|i: int| 0 <= i < key.len() ==> 'a' <= #[trigger] key[i] <= 'z',
        forall|i: int| 0 <= i < value.len() ==> '0' <= #[trigger] value[i] <= '9',
    ensures
        key_value(key + seq!['='] + value) == Some((key, value)),
        text::trimmed(key) == key,
        text::trimmed(value) == value,
{
    assert(key[key.len() - 1] == key.last());
    assert(value[value.len() - 1] == value.last());
    law_key_and_value_are_parted(key, value);
    assert(text::trim_start_while(key, |c: char| text::white_space(c)) == key);
    assert(text::trim_start_while(value, |c: char| text::white_space(c)) == value);
}

/// Of the user's places the first with a file is used, whatever comes behind it.
pub proof fn law_first_place_with_a_file_is_used(user: Seq<(Seq<Seq<char>>, bool)>, k: int)
    requires
        0 <= k < user.len(),
        user[k].1,
        forall|i: int| 0 <= i < k ==> !(#[trigger] user[i]).1,
    ensures
        located(false, user) == Some(user[k].0),
        located(true, user) == Some(seq!["ia-get.ini"@]),
    decreases k,
{
    if k > 0 {
        let rest = user.drop_first();
        assert(!user[0].1);
        assert(rest[k - 1] == user[k]);
        assert forall|i: int| 0 <= i < k - 1 implies !(#[trigger] rest[i]).1 by {
            assert(rest[i] == user[i + 1]);
        }
        law_first_place_with_a_file_is_used(rest, k - 1);
    }
}

/// The case of a key does not matter, nor white space around it.
pub proof fn law_keys_are_read_in_any_case(a: Seq<char>, b: Seq<char>)
    requires
        text::lower(text::trimmed(a)) == text::lower(text::trimmed(b)),
    ensures
        key_of(a) == key_of(b),
{
}

/// What stands behind a number sign is a comment, and nothing else is.
pub proof fn law_comments_start_at_the_number_sign(line: Seq<char>, comment: Seq<char>)
    requires
        !line.contains('#'),
    ensures
        line_content(line + seq!['#'] + comment) == line_content(line),
        line.len() > 0 && !text::white_space(line[0]) && !text::white_space(line.last())
            ==> line_content(line) == line,
{
    let all = line + seq!['#'] + comment;
    let n = line.len() as int;
    assert forall|j: int| 0 <= j < n implies #[trigger] line[j] != '#' by {
        if line[j] == '#' {
            assert(line.contains('#'));
        }
    }
    assert forall|j: int| 0 <= j < n implies #[trigger] all[j] != '#' by {
        assert(all[j] == line[j]);
    }
    text::lemma_first_index(line, '#', n);
    text::lemma_first_index(all, '#', n);
    assert(all.take(n) =~= line);
    assert(line.take(n) =~= line);
    if n > 0 && !text::white_space(line[0]) && !text::white_space(line.last()) {
        assert(text::trim_start_while(line, |c: char| text::white_space(c)) == line);
    }
}

/// A line is parted at its first equals sign, or at its first colon where it has no
/// equals sign; what stands on either side is kept as it is.
pub proof fn law_key_and_value_are_parted(key: Seq<char>, value: Seq<char>)
    requires
        key.len() > 0,
        value.len() > 0,
        !text::white_space(key[0]),
        !text::white_space(value.last()),
        !key.contains('#'),
        !value.contains('#'),
        !key.contains('='),
    ensures
        key_value(key + seq!['='] + value) == Some((key, value)),
        !key.contains(':') && !value.contains('=') ==> key_value(key + seq![':'] + value) == Some(
            (key, value),
        ),
{
    lemma_parted(key, value, '=');
    if !key.contains(':') && !value.contains('=') {
        lemma_parted(key, value, ':');
        let line = key + seq![':'] + value;
        assert forall|j: int| 0 <= j < line.len() implies #[trigger] line[j] != '=' by {
            if line[j] == '=' {
                if j < key.len() {
                    assert(key[j] == '=');
                } else if j > key.len() {
                    assert(value[j - key.len() - 1] == '=');
                }
            }
        }
        text::lemma_first_index(line, '=', line.len() as int);
    }
}

/// A line of a key, a sign and a value is all content, and the sign parts it.
proof fn lemma_parted(key: Seq<char>, value: Seq<char>, sign: char)
    requires
        key.len() > 0,
        value.len() > 0,
        !text::white_space(key[0]),
        !text::white_space(value.last()),
        !key.contains('#'),
        !value.contains('#'),
        !key.contains(sign),
        sign == '=' || sign == ':',
    ensures
        line_content(key + seq![sign] + value) == key + seq![sign] + value,
        split_once(key + seq![sign] + value, sign) == Some((key, value)),
{
    let line = key + seq![sign] + value;
    let n = key.len() as int;
    assert(!line.contains('#')) by {
        if line.contains('#') {
            let j = choose|j: int| 0 <= j < line.len() && line[j] == '#';
            if j < n {
                assert(key[j] == '#');
            } else if j > n {
                assert(value[j - n - 1] == '#');
            }
        }
    }
    assert(line[0] == key[0]);
    assert(line.last() == value.last());
    law_comments_start_at_the_number_sign(line, Seq::empty());
    assert forall|j: int| 0 <= j < n implies #[trigger] line[j] != sign by {
        if line[j] == sign {
            assert(key[j] == sign);
        }
    }
    text::lemma_first_index(line, sign, n);
    assert(line.take(n) =~= key);
    assert(line.skip(n + 1) =~= value);
}

/// Every setting goes by two names, in any case and with any white space around them;
/// no other name sets anything.
pub proof fn law_settings_have_two_names(key: Seq<char>)
    ensures
        ({
            let name = text::lower(text::trimmed(key));
            &&& key_of(key) is Bandwidth <==> name == "maxbandwidth"@ || name == "max_bandwidth"@
            &&& key_of(key) is Multithreading <==> name == "multithreading"@ || name
                == "multi_threading"@
            &&& key_of(key) is Threads <==> name == "threads"@ || name == "thread_count"@
        }),
{
    lemma_names_differ();
}

/// No two settings share a name.
proof fn lemma_names_differ()
    ensures
        "maxbandwidth"@ != "multithreading"@,
        "maxbandwidth"@ != "multi_threading"@,
        "maxbandwidth"@ != "threads"@,
        "maxbandwidth"@ != "thread_count"@,
        "max_bandwidth"@ != "multithreading"@,
        "max_bandwidth"@ != "multi_threading"@,
        "max_bandwidth"@ != "threads"@,
        "max_bandwidth"@ != "thread_count"@,
        "multithreading"@ != "threads"@,
        "multithreading"@ != "thread_count"@,
        "multi_threading"@ != "threads"@,
        "multi_threading"@ != "thread_count"@,
{
    reveal_strlit("maxbandwidth");
    reveal_strlit("max_bandwidth");
    reveal_strlit("multithreading");
    reveal_strlit("multi_threading");
    reveal_strlit("threads");
    reveal_strlit("thread_count");
    assert("maxbandwidth"@.len() == 12 && "maxbandwidth"@[0] == 'm');
    assert("max_bandwidth"@.len() == 13);
    assert("multithreading"@.len() == 14);
    assert("multi_threading"@.len() == 15);
    assert("threads"@.len() == 7);
    assert("thread_count"@.len() == 12 && "thread_count"@[0] == 't');
}

/// A word without white space at its ends, and a key of small letters, are read as they
/// stand.
proof fn lemma_worded_setting(key: Seq<char>, value: Seq<char>)
    requires
        key.len() > 0,
        value.len() > 0,
        forall|i: int| 0 <= i < key.len() ==> 'a' <= #[trigger] key[i] <= 'z',
        !text::white_space(value[0]),
        !text::white_space(value.last()),
        !value.contains('#'),
    ensures
        key_value(key + seq!['='] + value) == Some((key, value)),
        text::lower(text::trimmed(key)) == key,
        text::trimmed(value) == value,
{
    assert(key[key.len() - 1] == key.last());
    law_key_and_value_are_parted(key, value);
    assert(text::trim_start_while(key, |c: char| text::white_space(c)) == key);
    assert(text::trim_start_while(value, |c: char| text::white_space(c)) == value);
    assert(text::lower(key) =~= key);
}

/// Downloading in parallel is switched on by the words true, yes, 1 and on, in any
/// case, and off by false, no, 0 and off. Every other word is an error that shows it.
pub proof fn law_truth_values_are_words(config: Config, word: Seq<char>)
    requires
        word.len() > 0,
        !text::white_space(word[0]),
        !text::white_space(word.last()),
        !word.contains('#'),
    ensures
        ({
            let result = apply_line(config, "multithreading="@ + word);
            let w = text::lower(word);
            if w == "true"@ || w == "yes"@ || w == "1"@ || w == "on"@ {
                result == Ok::<Config, Seq<char>>((Config { multithreading: true, ..config }))
            } else if w == "false"@ || w == "no"@ || w == "0"@ || w == "off"@ {
                result == Ok::<Config, Seq<char>>((Config { multithreading: false, ..config }))
            } else {
                result == Err::<Config, Seq<char>>("Invalid boolean value: "@ + word)
            }
        }),
{
    reveal_strlit("multithreading=");
    reveal_strlit("multithreading");
    assert("multithreading="@ =~= "multithreading"@ + seq!['=']);
    lemma_worded_setting("multithreading"@, word);
    law_settings_have_two_names("multithreading"@);
}

/// A value that is no number is an error that shows the value as it stands.
pub proof fn law_wrong_numbers_are_told(config: Config, value: Seq<char>, i: int)
    requires
        1 <= i < value.len(),
        !('0' <= value[i] <= '9'),
        !text::white_space(value[0]),
        !text::white_space(value.last()),
        !value.contains('#'),
    ensures
        apply_line(config, "threads="@ + value) == Err::<Config, Seq<char>>(
            "Invalid threads value: "@ + value,
        ),
        apply_line(config, "maxbandwidth="@ + value) == Err::<Config, Seq<char>>(
            "Invalid maxbandwidth value: "@ + value,
        ),
{
    reveal_strlit("threads=");
    reveal_strlit("threads");
    reveal_strlit("maxbandwidth=");
    reveal_strlit("maxbandwidth");
    assert("threads="@ =~= "threads"@ + seq!['=']);
    assert("maxbandwidth="@ =~= "maxbandwidth"@ + seq!['=']);
    lemma_worded_setting("threads"@, value);
    lemma_worded_setting("maxbandwidth"@, value);
    law_settings_have_two_names("threads"@);
    law_settings_have_two_names("maxbandwidth"@);
    assert(value.drop_first()[i - 1] == value[i]);
    assert(!numbers::is_digit(value[i]));
    assert(!numbers::is_number(value));
    assert(!numbers::is_number(value.drop_first()));
}

/// A bandwidth may be negative, and is kept as it is.
pub proof fn law_negative_bandwidths_are_kept(config: Config, n: nat)
    requires
        n <= i64::MAX,
    ensures
        apply_line(config, "maxbandwidth=-"@ + numbers::decimal(n)) == Ok::<Config, Seq<char>>(
            (Config { max_bandwidth_kbps: (-n) as i64, ..config }),
        ),
{
    reveal_strlit("maxbandwidth=-");
    reveal_strlit("maxbandwidth");
    let d = numbers::decimal(n);
    let value = seq!['-'] + d;
    numbers::lemma_decimal_digits(n);
    numbers::lemma_decimal_value(n);
    assert("maxbandwidth=-"@ + d =~= "maxbandwidth"@ + seq!['='] + value);
    assert(value.last() == d[d.len() - 1]);
    assert(!value.contains('#')) by {
        if value.contains('#') {
            let j = choose|j: int| 0 <= j < value.len() && value[j] == '#';
            if j > 0 {
                assert(d[j - 1] == '#');
            }
        }
    }
    lemma_worded_setting("maxbandwidth"@, value);
    law_settings_have_two_names("maxbandwidth"@);
    assert(value.drop_first() =~= d);
}

/// Of a file that cannot be used the user is told why, and that the defaults hold.
pub proof fn law_warnings_tell_the_reason(message: Seq<char>)
    ensures
        load_warning(message).len() == message.len() + 53,
        text::has_prefix(load_warning(message), "Warning: could not load ia-get.ini ("@ + message),
        text::has_suffix(load_warning(message), "), using defaults"@),
{
    reveal_strlit("Warning: could not load ia-get.ini (");
    reveal_strlit("), using defaults");
    let begin = "Warning: could not load ia-get.ini ("@ + message;
    let end = "), using defaults"@;
    assert(load_warning(message).take(begin.len() as int) =~= begin);
    assert(load_warning(message).skip(load_warning(message).len() - end.len()) =~= end);
}

} // verus!
