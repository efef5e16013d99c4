//! Where the configuration lives and which configuration is used: paths
//! under the DATEX base directory, the choice among configuration files,
//! and the header printed when a runtime starts.
use vstd::prelude::*;
use vstd::string::*;

use colored::Colorize;

use crate::text::{byte_len, chars_of, push_char, push_str};

verus! {

/// `base` with `component` pushed onto it as `PathBuf::push` does on Unix:
/// an absolute component replaces the path; otherwise a `/` is put between
/// them unless `base` is empty or already ends with one.
pub open spec fn path_join(base: Seq<char>, component: Seq<char>) -> Seq<char> {
    if component.len() > 0 && component[0] == '/' {
        component
    } else if base.len() == 0 || base.last() == '/' {
        base + component
    } else {
        base.push('/') + component
    }
}

/// Pushes `component` onto the path `base` (see `path_join`).
pub fn push_path(base: &str, component: &str) -> (p: String)
    ensures
        p@ == path_join(base@, component@),
{
    let b = chars_of(base);
    let c = chars_of(component);
    if c.len() > 0 && c[0] == '/' {
        return String::from_str(component);
    }
    let mut p = String::from_str(base);
    if b.len() > 0 && b[b.len() - 1] != '/' {
        push_char(&mut p, '/');
    }
    push_str(&mut p, component);
    p
}

/// The directory that holds the configuration files under `base`.
pub fn config_dir_path(base: &str) -> (p: String)
    ensures
        p@ == path_join(base@, ".datex"@),
{
    push_path(base, ".datex")
}

/// The configuration file that is created for `endpoint` under `base`.
pub fn new_config_file_path(base: &str, endpoint: &str) -> (p: String)
    ensures
        p@ == path_join(path_join(base@, ".datex"@), endpoint@ + ".dx"@),
{
    let dir = config_dir_path(base);
    let mut name = String::from_str(endpoint);
    push_str(&mut name, ".dx");
    push_path(dir.as_str(), name.as_str())
}

/// Whether a file name has the extension `dx` (as `Path::extension` reads
/// it: the part after the last `.`, which must not be the first character).
pub open spec fn has_dx_extension(name: Seq<char>) -> bool {
    name.len() > 3 && name.skip(name.len() - 3) == seq!['.', 'd', 'x']
}

/// Whether the file named `name` is a configuration file.
pub fn is_dx_file_name(name: &str) -> (r: bool)
    ensures
        r == has_dx_extension(name@),
{
    let cs = chars_of(name);
    let n = cs.len();
    if n <= 3 {
        return false;
    }
    let r = cs[n - 3] == '.' && cs[n - 2] == 'd' && cs[n - 1] == 'x';
    proof {
        let t = name@.skip(n - 3);
        if r {
            assert(t =~= seq!['.', 'd', 'x']);
        } else {
            if t == seq!['.', 'd', 'x'] {
                assert(t[0] == cs@[n - 3] && t[1] == cs@[n - 2] && t[2] == cs@[n - 1]);
            }
        }
    }
    r
}

/// The configuration files among the entries of `config_dir`, in order.
pub open spec fn dx_files_spec(config_dir: Seq<char>, names: Seq<Seq<char>>) -> Seq<Seq<char>> {
    names.filter(|n: Seq<char>| has_dx_extension(n)).map_values(|n: Seq<char>| path_join(config_dir, n))
}

/// The paths of the entries named in `entry_names` that are configuration
/// files (extension `dx`), in the order of the entries.
pub fn select_dx_files(config_dir: &str, entry_names: &Vec<String>) -> (r: Vec<String>)
    ensures
        r@.map_values(|s: String| s@) == dx_files_spec(config_dir@, entry_names@.map_values(|s: String| s@)),
{
    let ghost names = entry_names@.map_values(|s: String| s@);
    let ghost pred = |n: Seq<char>| has_dx_extension(n);
    let ghost join = |n: Seq<char>| path_join(config_dir@, n);
    let mut r: Vec<String> = Vec::new();
    let mut i: usize = 0;
    while i < entry_names.len()
        invariant
            i <= entry_names@.len(),
            names == entry_names@.map_values(|s: String| s@),
            pred == (|n: Seq<char>| has_dx_extension(n)),
            join == (|n: Seq<char>| path_join(config_dir@, n)),
            r@.map_values(|s: String| s@) == names.take(i as int).filter(pred).map_values(join),
        decreases entry_names@.len() - i,
    {
        let keep = is_dx_file_name(entry_names[i].as_str());
        proof {
            assert(names.take(i + 1) =~= names.take(i as int).push(names[i as int]));
            names.take(i as int).lemma_filter_push(names[i as int], pred);
        }
        let ghost before = r@;
        if keep {
            let p = push_path(config_dir, entry_names[i].as_str());
            r.push(p);
            proof {
                let f = names.take(i as int).filter(pred);
                assert(f.push(names[i as int]).map_values(join) =~= f.map_values(join).push(join(names[i as int])));
                assert(r@.map_values(|s: String| s@) =~= before.map_values(|s: String| s@).push(p@));
            }
        }
        i = i + 1;
    }
    assert(names.take(entry_names@.len() as int) =~= names);
    r
}

/// Where the configuration comes from.
pub enum ConfigSource {
    /// The configuration file given on the command line.
    CustomFile(String),
    /// The configuration files under this home directory.
    HomeDirectory(String),
    /// No home directory: a temporary endpoint is used.
    Temporary,
}

/// A configuration file given on the command line is used; otherwise the
/// configuration files under the home directory, when there is one and its
/// path is not empty; otherwise a temporary endpoint.
pub fn config_source(custom_config_path: Option<String>, home: Option<String>) -> (r: ConfigSource)
    ensures
        match custom_config_path {
            Some(p) => r == ConfigSource::CustomFile(p),
            None => match home {
                Some(h) => if h@.len() > 0 {
                    r == ConfigSource::HomeDirectory(h)
                } else {
                    r == ConfigSource::Temporary
                },
                None => r == ConfigSource::Temporary,
            },
        },
{
    match custom_config_path {
        Some(p) => ConfigSource::CustomFile(p),
        None => match home {
            Some(h) => {
                let cs = chars_of(h.as_str());
                if cs.len() > 0 {
                    ConfigSource::HomeDirectory(h)
                } else {
                    ConfigSource::Temporary
                }
            },
            None => ConfigSource::Temporary,
        },
    }
}

/// Which configuration file under the home directory is used.
pub enum HomeConfig {
    /// There is none yet: one is created for a new endpoint.
    CreateNew,
    /// The first configuration file found.
    UseExisting(String),
}

/// With no configuration file yet, a new one is created; otherwise the first
/// one found is used.
pub fn choose_home_config(dx_files: &Vec<String>) -> (r: HomeConfig)
    ensures
        dx_files@.len() == 0 ==> r == HomeConfig::CreateNew,
        dx_files@.len() > 0 ==> r == HomeConfig::UseExisting(dx_files@[0]),
{
    if dx_files.len() == 0 {
        HomeConfig::CreateNew
    } else {
        HomeConfig::UseExisting(dx_files[0].clone())
    }
}

/// `home::home_dir`: the user's home directory, read from the environment
/// (and the password database). The result depends on the environment, so
/// nothing is stated of it. The library holds paths as text: a home
/// directory whose path is not valid UTF-8 is reported as none, never
/// altered.
#[verifier::external_body]
fn home_dir() -> Option<String> {
    match home::home_dir() {
        Some(p) => p.into_os_string().into_string().ok(),
        None => None,
    }
}

/// Where the configuration comes from, with the home directory as the
/// environment gives it: the file given on the command line if any, else the
/// home directory when there is a non-empty one, else a temporary endpoint.
pub fn get_config_source(custom_config_path: Option<String>) -> (r: ConfigSource)
    ensures
        match custom_config_path {
            Some(p) => r == ConfigSource::CustomFile(p),
            None => match r {
                ConfigSource::HomeDirectory(h) => h@.len() > 0,
                ConfigSource::Temporary => true,
                ConfigSource::CustomFile(_) => false,
            },
        },
{
    match custom_config_path {
        Some(p) => ConfigSource::CustomFile(p),
        None => config_source(None, home_dir()),
    }
}

/// The DATEX base directory under the home directory `home`.
pub fn datex_base_dir_of(home: Option<String>) -> (r: Option<String>)
    ensures
        match home {
            Some(h) => r is Some && r->0@ == path_join(h@, ".datex"@),
            None => r is None,
        },
{
    match home {
        Some(h) => Some(push_path(h.as_str(), ".datex")),
        None => None,
    }
}

/// The DATEX base directory: `.datex` under the user's home directory, if
/// there is one.
pub fn get_datex_base_dir() -> (r: Option<String>)
    ensures
        r matches Some(p) ==> exists|h: Seq<char>| p@ == path_join(h, ".datex"@),
{
    datex_base_dir_of(home_dir())
}

/// `n` copies of `c`.
pub open spec fn repeat_char(c: char, n: int) -> Seq<char> {
    Seq::new(if n > 0 { n as nat } else { 0 }, |i: int| c)
}

/// `s` padded with spaces on the right to `w` characters, as `{:<w$}` pads.
pub open spec fn pad_right(s: Seq<char>, w: int) -> Seq<char> {
    s + repeat_char(' ', w - s.len())
}

/// Width of the box printed when a runtime starts: the bytes of the
/// endpoint line without color, at least 20.
pub open spec fn header_width(endpoint: Seq<char>) -> int {
    let plain = " Endpoint: "@ + endpoint + " "@;
    if byte_len(plain) > 20 {
        byte_len(plain) as int
    } else {
        20
    }
}

/// The box printed when a runtime starts, given the DATEX version, the
/// endpoint, and the endpoint as it is shown (possibly colored): it is as
/// wide as the endpoint line without color, and at least 20 columns; the
/// line with the colored endpoint is padded so that its visible width
/// matches.
pub open spec fn header_lines_spec(version: Seq<char>, endpoint: Seq<char>, shown: Seq<char>) -> Seq<
    Seq<char>,
> {
    let plain = " Endpoint: "@ + endpoint + " "@;
    let colored = " Endpoint: "@ + shown + " "@;
    let width = header_width(endpoint);
    seq![
        seq!['\u{250C}'] + repeat_char('\u{2500}', width) + seq!['\u{2510}'],
        seq!['\u{2502}'] + pad_right(" DATEX v"@ + version, width) + seq!['\u{2502}'],
        seq!['\u{2502}'] + pad_right(colored, width + byte_len(colored) - byte_len(plain))
            + seq!['\u{2502}'],
        seq!['\u{2514}'] + repeat_char('\u{2500}', width) + seq!['\u{2518}'],
    ]
}

/// The views of a list of strings.
pub open spec fn strings_view(v: Seq<String>) -> Seq<Seq<char>> {
    v.map_values(|s: String| s@)
}

fn repeat_string(c: char, n: usize) -> (s: String)
    ensures
        s@ == repeat_char(c, n as int),
{
    let mut s = String::new();
    let mut i: usize = 0;
    while i < n
        invariant
            i <= n,
            s@ == repeat_char(c, i as int),
        decreases n - i,
    {
        push_char(&mut s, c);
        assert(s@ =~= repeat_char(c, i + 1));
        i = i + 1;
    }
    s
}

fn padded_line(content: &str, width: usize) -> (s: String)
    ensures
        s@ == seq!['\u{2502}'] + pad_right(content@, width as int) + seq!['\u{2502}'],
{
    let cs = chars_of(content);
    let mut s = String::new();
    push_char(&mut s, '\u{2502}');
    push_str(&mut s, content);
    let fill = if cs.len() < width {
        width - cs.len()
    } else {
        0
    };
    let pad = repeat_string(' ', fill);
    push_str(&mut s, pad.as_str());
    push_char(&mut s, '\u{2502}');
    assert(repeat_char(' ', fill as int) =~= repeat_char(' ', width - content@.len()));
    assert(s@ =~= seq!['\u{2502}'] + pad_right(content@, width as int) + seq!['\u{2502}']);
    s
}

fn border_line(left: char, width: usize, right: char) -> (s: String)
    ensures
        s@ == seq![left] + repeat_char('\u{2500}', width as int) + seq![right],
{
    let mut s = String::new();
    push_char(&mut s, left);
    let bar = repeat_string('\u{2500}', width);
    push_str(&mut s, bar.as_str());
    push_char(&mut s, right);
    assert(s@ =~= seq![left] + repeat_char('\u{2500}', width as int) + seq![right]);
    s
}

fn byte_length(s: &str) -> (n: usize)
    ensures
        n == byte_len(s@),
{
    s.as_bytes().len()
}

/// The lines of the box printed when a runtime starts (see
/// `header_lines_spec`), with the endpoint shown as `shown_endpoint`.
pub fn runtime_header_lines(version: &str, endpoint: &str, shown_endpoint: &str) -> (r: Vec<String>)
    requires
        byte_len(endpoint@) + byte_len(shown_endpoint@) + 64 <= usize::MAX,
        byte_len(version@) + 64 <= usize::MAX,
    ensures
        strings_view(r@) == header_lines_spec(version@, endpoint@, shown_endpoint@),
{
    proof {
        reveal_strlit(" Endpoint: ");
        reveal_strlit(" ");
        reveal_strlit(" DATEX v");
        crate::text::lemma_byte_len_concat(" Endpoint: "@, endpoint@);
        crate::text::lemma_byte_len_concat(" Endpoint: "@ + endpoint@, " "@);
        crate::text::lemma_byte_len_concat(" Endpoint: "@, shown_endpoint@);
        crate::text::lemma_byte_len_concat(" Endpoint: "@ + shown_endpoint@, " "@);
        crate::text::lemma_byte_len_ascii(" Endpoint: "@);
        crate::text::lemma_byte_len_ascii(" "@);
    }
    let mut plain = String::from_str(" Endpoint: ");
    push_str(&mut plain, endpoint);
    push_str(&mut plain, " ");
    let mut colored = String::from_str(" Endpoint: ");
    push_str(&mut colored, shown_endpoint);
    push_str(&mut colored, " ");
    let plain_len = byte_length(plain.as_str());
    let colored_len = byte_length(colored.as_str());
    let width = if plain_len > 20 {
        plain_len
    } else {
        20
    };
    let mut title = String::from_str(" DATEX v");
    push_str(&mut title, version);
    let mut r: Vec<String> = Vec::new();
    r.push(border_line('\u{250C}', width, '\u{2510}'));
    r.push(padded_line(title.as_str(), width));
    r.push(padded_line(colored.as_str(), width + colored_len - plain_len));
    r.push(border_line('\u{2514}', width, '\u{2518}'));
    proof {
        assert(strings_view(r@) =~= header_lines_spec(version@, endpoint@, shown_endpoint@));
    }
    r
}

/// Law: however the endpoint is shown (colored or not), the two border
/// lines and the title line stay the same: the title line is the title
/// `DATEX v` and the version, padded with spaces to the box width (or the
/// title alone where it is wider), between two vertical bars; only the
/// endpoint line takes the color codes.
pub proof fn lemma_header_title_line(version: Seq<char>, endpoint: Seq<char>, shown: Seq<char>)
    ensures
        ({
            let title = seq![' ', 'D', 'A', 'T', 'E', 'X', ' ', 'v'] + version;
            let w = header_width(endpoint);
            let l = header_lines_spec(version, endpoint, shown)[1];
            &&& l.len() == (if title.len() > w {
                title.len() as int
            } else {
                w
            }) + 2
            &&& l[0] == '\u{2502}'
            &&& l[l.len() - 1] == '\u{2502}'
            &&& l.subrange(1, title.len() + 1 as int) == title
            &&& forall|i: int| title.len() + 1 <= i < l.len() - 1 ==> l[i] == ' '
        }),
        header_lines_spec(version, endpoint, shown)[0] == header_lines_spec(version, endpoint, endpoint)[0],
        header_lines_spec(version, endpoint, shown)[1] == header_lines_spec(version, endpoint, endpoint)[1],
        header_lines_spec(version, endpoint, shown)[3] == header_lines_spec(version, endpoint, endpoint)[3],
{
    reveal_strlit(" DATEX v");
    let title = seq![' ', 'D', 'A', 'T', 'E', 'X', ' ', 'v'] + version;
    assert(" DATEX v"@ + version =~= title);
    let w = header_width(endpoint);
    let l = header_lines_spec(version, endpoint, shown)[1];
    let pad = repeat_char(' ', w - title.len());
    assert(l =~= seq!['\u{2502}'] + title + pad + seq!['\u{2502}']);
    assert(l.subrange(1, title.len() + 1 as int) =~= title);
    assert forall|i: int| title.len() + 1 <= i < l.len() - 1 implies l[i] == ' ' by {
        assert(l[i] == pad[i - title.len() - 1]);
    }
}

/// Law: shown without color, the box is aligned: when the title line fits
/// in the box, all four lines have the same number of characters.
pub proof fn lemma_header_box_aligned(version: Seq<char>, endpoint: Seq<char>)
    requires
        (" DATEX v"@ + version).len() <= header_width(endpoint),
    ensures
        forall|i: int|
            0 <= i < 4 ==> #[trigger] header_lines_spec(version, endpoint, endpoint)[i].len()
                == header_width(endpoint) + 2,
{
    let plain = " Endpoint: "@ + endpoint + " "@;
    crate::text::lemma_byte_len_ge_len(plain);
    let l = header_lines_spec(version, endpoint, endpoint);
    assert(l[0].len() == header_width(endpoint) + 2);
    assert(l[1].len() == header_width(endpoint) + 2);
    assert(l[2].len() == header_width(endpoint) + 2);
    assert(l[3].len() == header_width(endpoint) + 2);
}

/// Whether `s` holds no escape character.
pub open spec fn no_escapes(s: Seq<char>) -> bool {
    forall|i: int| 0 <= i < s.len() ==> s[i] != '\u{1b}'
}

/// Whether `r` is `s` as it is, or `s` between a color sequence
/// `ESC [ code m` and the reset sequence `ESC [0m`.
pub open spec fn plain_or_colored(r: Seq<char>, s: Seq<char>) -> bool {
    ||| r == s
    ||| exists|code: Seq<char>| r == seq!['\u{1b}', '['] + code + seq!['m'] + s + seq!['\u{1b}', '[', '0', 'm']
}

/// colored's `Colorize::truecolor(88, 212, 82)` applied to `s` and written
/// out with `Display`: the text unchanged where colors are off, else the
/// text between a color sequence and the reset sequence. Whether colors are
/// on, and which code is written (24-bit or the nearest basic color),
/// depends on the terminal and the environment and is left open; a text
/// without escape characters holds no reset sequence for colored to escape.
#[verifier::external_body]
fn truecolor_green(s: &str) -> (r: String)
    ensures
        no_escapes(s@) ==> plain_or_colored(r@, s@),
{
    s.truecolor(88, 212, 82).to_string()
}

/// The lines of the box printed when a runtime starts, with the endpoint
/// shown in green where the terminal allows it.
pub fn runtime_header(version: &str, endpoint: &str) -> (r: Vec<String>)
    requires
        2 * byte_len(endpoint@) + 64 <= usize::MAX,
        byte_len(version@) + 64 <= usize::MAX,
    ensures
        exists|shown: Seq<char>|
            strings_view(r@) == #[trigger] header_lines_spec(version@, endpoint@, shown) && (no_escapes(
                endpoint@,
            ) ==> plain_or_colored(shown, endpoint@)),
{
    let shown = truecolor_green(endpoint);
    if byte_length(shown.as_str()) > usize::MAX - 64 - byte_length(endpoint) {
        // A colored text this long could not be padded within a `usize`
        // width; the endpoint is shown without color then.
        let r = runtime_header_lines(version, endpoint, endpoint);
        assert(plain_or_colored(endpoint@, endpoint@));
        return r;
    }
    let r = runtime_header_lines(version, endpoint, shown.as_str());
    assert(strings_view(r@) == header_lines_spec(version@, endpoint@, shown@) && (no_escapes(endpoint@)
        ==> plain_or_colored(shown@, endpoint@)));
    r
}

} // verus!
