//! The app config: where screenshots go, persisted as `key=value` lines.
//!
//! Paths follow the rules of the platform named in the environment (Unix or
//! Windows; see the paths section). The caller reads the environment and the
//! file; everything decided from their contents is here.

use vstd::prelude::*;
use crate::text::{chars_of, string_of, push_str, push_char, push_decimal, decimal, trim, trim_range, find_from, find_char,
    lemma_find_from_bounds};

verus! {

/// Why a path or the config text was rejected.
#[derive(Clone, Copy, PartialEq, Eq, Debug, Structural)]
pub enum ConfigError {
    /// The screenshot path is empty (after trimming).
    EmptyPath,
    /// The screenshot path holds NUL, CR or LF.
    InvalidCharacter,
    /// Neither `HOME` nor `USERPROFILE` names a directory.
    HomeNotSet,
    /// A relative path was given and the working directory is unknown.
    CurrentDirUnavailable,
    /// A config line (1-based) has no `=`.
    InvalidLine(usize),
}

/// Which platform's path rules and config location to use.
#[derive(Clone, Copy, PartialEq, Eq, Debug, Structural)]
pub enum Platform {
    MacOs,
    Windows,
    OtherUnix,
}

/// The environment values the config depends on, each `None` when unset,
/// and the platform whose path rules apply.
#[derive(Clone, Debug)]
pub struct EnvPaths {
    pub platform: Platform,
    pub home: Option<String>,
    pub userprofile: Option<String>,
    pub appdata: Option<String>,
    pub xdg_config_home: Option<String>,
    pub current_dir: Option<String>,
}

pub struct EnvView {
    pub platform: Platform,
    pub home: Option<Seq<char>>,
    pub userprofile: Option<Seq<char>>,
    pub appdata: Option<Seq<char>>,
    pub xdg_config_home: Option<Seq<char>>,
    pub current_dir: Option<Seq<char>>,
}

pub open spec fn opt_view(o: Option<String>) -> Option<Seq<char>> {
    match o {
        Some(s) => Some(s@),
        None => None,
    }
}

impl View for EnvPaths {
    type V = EnvView;

    open spec fn view(&self) -> EnvView {
        EnvView {
            platform: self.platform,
            home: opt_view(self.home),
            userprofile: opt_view(self.userprofile),
            appdata: opt_view(self.appdata),
            xdg_config_home: opt_view(self.xdg_config_home),
            current_dir: opt_view(self.current_dir),
        }
    }
}

pub open spec fn is_windows(p: Platform) -> bool {
    p == Platform::Windows
}

// ---- paths ----
//
// Unix rules: `/` separates components and a path is absolute when it
// starts with `/`. Windows rules: `\` and `/` both separate; a path may
// start with a prefix, a drive `C:` or `\\server\share` (which also covers
// `\\?\name` and `\\.\name`), and is absolute when it has a prefix and a
// root (`C:\x`, `\\server\share\x`; `C:x` and `\x` are not).

/// A path separator.
pub open spec fn is_sep(w: bool, c: char) -> bool {
    c == '/' || (w && c == '\\')
}

pub open spec fn is_drive_letter(c: char) -> bool {
    ('a' <= c && c <= 'z') || ('A' <= c && c <= 'Z')
}

/// Position of the first Windows separator at or after `from`, or the length.
pub open spec fn comp_end(s: Seq<char>, from: int) -> int
    decreases s.len() - from,
{
    if from >= s.len() {
        s.len() as int
    } else if is_sep(true, s[from]) {
        from
    } else {
        comp_end(s, from + 1)
    }
}

/// `p` starts with a drive prefix `X:`.
pub open spec fn win_disk(p: Seq<char>) -> bool {
    p.len() >= 2 && is_drive_letter(p[0]) && p[1] == ':'
}

/// Length of the Windows prefix of `p`: two separators, a server and a share
/// component; or a drive `X:`; or 0 when there is none.
pub open spec fn win_prefix_len(p: Seq<char>) -> int {
    if p.len() >= 2 && is_sep(true, p[0]) && is_sep(true, p[1]) {
        let e1 = comp_end(p, 2);
        if e1 == 2 || e1 >= p.len() {
            0
        } else {
            let e2 = comp_end(p, e1 + 1);
            if e2 == e1 + 1 {
                0
            } else {
                e2
            }
        }
    } else if win_disk(p) {
        2
    } else {
        0
    }
}

/// `p` has a root: a separator at its start or right after a drive, or a
/// server/share prefix (which always carries one).
pub open spec fn has_root(w: bool, p: Seq<char>) -> bool {
    if !w {
        p.len() > 0 && p[0] == '/'
    } else if win_prefix_len(p) == 0 {
        p.len() > 0 && is_sep(true, p[0])
    } else if win_disk(p) {
        p.len() > 2 && is_sep(true, p[2])
    } else {
        true
    }
}

pub open spec fn is_absolute(w: bool, p: Seq<char>) -> bool {
    if w {
        win_prefix_len(p) > 0 && has_root(true, p)
    } else {
        p.len() > 0 && p[0] == '/'
    }
}

/// `base.join(p)`. Unix: an absolute `p` replaces `base`; otherwise `p` is
/// appended after a `/` (none after an empty base or one ending in `/`).
/// Windows: a `p` with a prefix replaces `base`; a `p` with a root but no
/// prefix keeps only the prefix of `base`; otherwise `p` is appended after a
/// `\` (none after an empty base, one ending in a separator, or a bare
/// drive `X:`).
pub open spec fn join_path(w: bool, base: Seq<char>, p: Seq<char>) -> Seq<char> {
    if !w {
        if is_absolute(false, p) {
            p
        } else if base.len() == 0 {
            p
        } else if base.last() == '/' {
            base + p
        } else {
            base + seq!['/'] + p
        }
    } else if win_prefix_len(p) > 0 {
        p
    } else if has_root(true, p) {
        base.take(win_prefix_len(base)) + p
    } else if base.len() == 0 || is_sep(true, base.last()) || (win_disk(base) && base.len() == 2) {
        base + p
    } else {
        base + seq!['\\'] + p
    }
}

fn is_sep_char(w: bool, c: char) -> (b: bool)
    ensures
        b == is_sep(w, c),
{
    c == '/' || (w && c == '\\')
}

fn comp_end_at(s: &Vec<char>, from: usize) -> (e: usize)
    requires
        from <= s@.len(),
    ensures
        e as int == comp_end(s@, from as int),
        from <= e <= s@.len(),
{
    let mut i = from;
    while i < s.len() && !is_sep_char(true, s[i])
        invariant
            from <= i <= s@.len(),
            comp_end(s@, from as int) == comp_end(s@, i as int),
        decreases s.len() - i,
    {
        i = i + 1;
    }
    i
}

fn win_prefix(p: &Vec<char>) -> (k: usize)
    ensures
        k as int == win_prefix_len(p@),
        k <= p@.len(),
{
    if p.len() >= 2 && is_sep_char(true, p[0]) && is_sep_char(true, p[1]) {
        let e1 = comp_end_at(p, 2);
        if e1 == 2 || e1 >= p.len() {
            0
        } else {
            let e2 = comp_end_at(p, e1 + 1);
            if e2 == e1 + 1 {
                0
            } else {
                e2
            }
        }
    } else if p.len() >= 2 && (('a' <= p[0] && p[0] <= 'z') || ('A' <= p[0] && p[0] <= 'Z')) && p[1] == ':' {
        2
    } else {
        0
    }
}

fn rooted(w: bool, p: &Vec<char>) -> (b: bool)
    ensures
        b == has_root(w, p@),
{
    if !w {
        return p.len() > 0 && p[0] == '/';
    }
    let k = win_prefix(p);
    if k == 0 {
        p.len() > 0 && is_sep_char(true, p[0])
    } else if p.len() >= 2 && (('a' <= p[0] && p[0] <= 'z') || ('A' <= p[0] && p[0] <= 'Z')) && p[1] == ':' {
        p.len() > 2 && is_sep_char(true, p[2])
    } else {
        true
    }
}

/// Whether `p` is absolute under the platform's rules.
pub fn absolute(w: bool, p: &Vec<char>) -> (b: bool)
    ensures
        b == is_absolute(w, p@),
{
    if w {
        win_prefix(p) > 0 && rooted(true, p)
    } else {
        p.len() > 0 && p[0] == '/'
    }
}

pub fn join(w: bool, base: &Vec<char>, p: &Vec<char>) -> (r: Vec<char>)
    ensures
        r@ == join_path(w, base@, p@),
{
    let mut r: Vec<char> = Vec::new();
    if !w {
        if p.len() > 0 && p[0] == '/' {
            append_chars(&mut r, p);
            assert(r@ =~= p@);
            return r;
        }
        append_chars(&mut r, base);
        if base.len() > 0 && base[base.len() - 1] != '/' {
            r.push('/');
        }
        append_chars(&mut r, p);
        assert(r@ =~= join_path(w, base@, p@));
        return r;
    }
    if win_prefix(p) > 0 {
        append_chars(&mut r, p);
        assert(r@ =~= p@);
        return r;
    }
    if rooted(true, p) {
        let k = win_prefix(base);
        let mut i: usize = 0;
        while i < k
            invariant
                i <= k <= base@.len(),
                r@ == base@.take(i as int),
            decreases k - i,
        {
            r.push(base[i]);
            i = i + 1;
            assert(r@ =~= base@.take(i as int));
        }
        append_chars(&mut r, p);
        assert(r@ =~= join_path(w, base@, p@));
        return r;
    }
    append_chars(&mut r, base);
    let bare_drive = base.len() == 2 && (('a' <= base[0] && base[0] <= 'z') || ('A' <= base[0] && base[0] <= 'Z'))
        && base[1] == ':';
    if base.len() > 0 && !is_sep_char(true, base[base.len() - 1]) && !bare_drive {
        r.push('\\');
    }
    append_chars(&mut r, p);
    assert(r@ =~= join_path(w, base@, p@));
    r
}

pub fn append_chars(r: &mut Vec<char>, s: &Vec<char>)
    ensures
        final(r)@ == old(r)@ + s@,
{
    let mut i: usize = 0;
    let ghost start = r@;
    while i < s.len()
        invariant
            i <= s@.len(),
            r@ == start + s@.subrange(0, i as int),
        decreases s.len() - i,
    {
        r.push(s[i]);
        i = i + 1;
        assert(r@ =~= start + s@.subrange(0, i as int));
    }
    assert(s@.subrange(0, i as int) =~= s@);
}

/// `HOME`, or `USERPROFILE` when `HOME` is unset; an empty value counts as
/// unset.
pub open spec fn home_spec(env: EnvView) -> Option<Seq<char>> {
    let h = if env.home is Some { env.home } else { env.userprofile };
    match h {
        Some(v) => if v.len() > 0 { Some(v) } else { None },
        None => None,
    }
}

pub fn home_dir(env: &EnvPaths) -> (r: Result<Vec<char>, ConfigError>)
    ensures
        match home_spec(env@) {
            Some(h) => r matches Ok(v) && v@ == h,
            None => r == Err::<Vec<char>, ConfigError>(ConfigError::HomeNotSet),
        },
{
    let h = match &env.home {
        Some(v) => Some(v),
        None => match &env.userprofile {
            Some(v) => Some(v),
            None => None,
        },
    };
    match h {
        Some(v) => {
            let cs = chars_of(v.as_str());
            if cs.len() > 0 {
                Ok(cs)
            } else {
                Err(ConfigError::HomeNotSet)
            }
        },
        None => Err(ConfigError::HomeNotSet),
    }
}

/// `~` and a leading `~/` stand for the home directory.
pub open spec fn expand_home_spec(input: Seq<char>, env: EnvView) -> Result<Seq<char>, ConfigError> {
    if input == seq!['~'] || (input.len() >= 2 && input[0] == '~' && input[1] == '/') {
        match home_spec(env) {
            Some(h) => if input.len() == 1 { Ok(h) } else { Ok(join_path(is_windows(env.platform), h, input.skip(2))) },
            None => Err(ConfigError::HomeNotSet),
        }
    } else {
        Ok(input)
    }
}

pub fn expand_home(input: &Vec<char>, env: &EnvPaths) -> (r: Result<Vec<char>, ConfigError>)
    ensures
        match expand_home_spec(input@, env@) {
            Ok(v) => r matches Ok(x) && x@ == v,
            Err(e) => r == Err::<Vec<char>, ConfigError>(e),
        },
{
    if input.len() == 1 && input[0] == '~' {
        assert(input@ =~= seq!['~']);
        return home_dir(env);
    }
    if input.len() >= 2 && input[0] == '~' && input[1] == '/' {
        let home = home_dir(env)?;
        let mut rest: Vec<char> = Vec::new();
        let mut i: usize = 2;
        while i < input.len()
            invariant
                2 <= i <= input@.len(),
                rest@ == input@.subrange(2, i as int),
            decreases input.len() - i,
        {
            rest.push(input[i]);
            i = i + 1;
            assert(rest@ =~= input@.subrange(2, i as int));
        }
        assert(rest@ =~= input@.skip(2));
        return Ok(join(env.platform == Platform::Windows, &home, &rest));
    }
    assert(input@ != seq!['~']);
    let mut copy: Vec<char> = Vec::new();
    append_chars(&mut copy, input);
    assert(copy@ =~= input@);
    Ok(copy)
}

pub open spec fn has_invalid_char(s: Seq<char>) -> bool {
    exists|i: int| 0 <= i < s.len() && (s[i] == '\0' || s[i] == '\n' || s[i] == '\r')
}

/// A user-typed screenshot directory, made absolute.
pub open spec fn normalize_spec(input: Seq<char>, env: EnvView) -> Result<Seq<char>, ConfigError> {
    let t = trim(input);
    if t.len() == 0 {
        Err(ConfigError::EmptyPath)
    } else if has_invalid_char(t) {
        Err(ConfigError::InvalidCharacter)
    } else {
        match expand_home_spec(t, env) {
            Err(e) => Err(e),
            Ok(p) => if is_absolute(is_windows(env.platform), p) {
                Ok(p)
            } else {
                match env.current_dir {
                    Some(cwd) => Ok(join_path(is_windows(env.platform), cwd, p)),
                    None => Err(ConfigError::CurrentDirUnavailable),
                }
            },
        }
    }
}

pub fn normalize_chars(input: &Vec<char>, env: &EnvPaths) -> (r: Result<Vec<char>, ConfigError>)
    ensures
        match normalize_spec(input@, env@) {
            Ok(v) => r matches Ok(x) && x@ == v,
            Err(e) => r == Err::<Vec<char>, ConfigError>(e),
        },
{
    let t = trim_range(input, 0, input.len());
    assert(input@.subrange(0, input@.len() as int) =~= input@);
    assert(t@ == trim(input@));
    if t.len() == 0 {
        return Err(ConfigError::EmptyPath);
    }
    let mut i: usize = 0;
    while i < t.len()
        invariant
            i <= t@.len(),
            t@ == trim(input@),
            t@.len() > 0,
            forall|k: int| 0 <= k < i ==> !(t@[k] == '\0' || t@[k] == '\n' || t@[k] == '\r'),
        decreases t.len() - i,
    {
        if t[i] == '\0' || t[i] == '\n' || t[i] == '\r' {
            assert(has_invalid_char(t@));
            return Err(ConfigError::InvalidCharacter);
        }
        i = i + 1;
    }
    let p = expand_home(&t, env)?;
    let w = env.platform == Platform::Windows;
    if absolute(w, &p) {
        return Ok(p);
    }
    match &env.current_dir {
        Some(cwd) => {
            let base = chars_of(cwd.as_str());
            Ok(join(w, &base, &p))
        },
        None => Err(ConfigError::CurrentDirUnavailable),
    }
}

/// Turns a typed screenshot directory into an absolute path: trims it,
/// rejects empty input and NUL/CR/LF, expands `~`, and resolves relative
/// paths against the working directory.
pub fn normalize_dir_input(input: &str, env: &EnvPaths) -> (r: Result<String, ConfigError>)
    ensures
        match normalize_spec(input@, env@) {
            Ok(v) => r matches Ok(x) && x@ == v,
            Err(e) => r == Err::<String, ConfigError>(e),
        },
{
    let cs = chars_of(input);
    match normalize_chars(&cs, env) {
        Ok(v) => Ok(string_of(&v)),
        Err(e) => Err(e),
    }
}

/// `~/Pictures/terminal-cam`.
pub open spec fn default_screenshot_dir_spec(env: EnvView) -> Option<Seq<char>> {
    match home_spec(env) {
        Some(h) => {
            let w = is_windows(env.platform);
            Some(join_path(w, join_path(w, h, "Pictures"@), "terminal-cam"@))
        },
        None => None,
    }
}

fn join_str(w: bool, base: &Vec<char>, part: &str) -> (r: Vec<char>)
    ensures
        r@ == join_path(w, base@, part@),
{
    let p = chars_of(part);
    join(w, base, &p)
}

pub fn default_screenshot_dir(env: &EnvPaths) -> (r: Result<String, ConfigError>)
    ensures
        match default_screenshot_dir_spec(env@) {
            Some(v) => r matches Ok(x) && x@ == v,
            None => r == Err::<String, ConfigError>(ConfigError::HomeNotSet),
        },
{
    let h = home_dir(env)?;
    let w = env.platform == Platform::Windows;
    let a = join_str(w, &h, "Pictures");
    let b = join_str(w, &a, "terminal-cam");
    Ok(string_of(&b))
}

/// `base/terminal-cam/config` under the platform's rules.
pub open spec fn config_under(w: bool, base: Seq<char>) -> Seq<char> {
    join_path(w, join_path(w, base, "terminal-cam"@), "config"@)
}

/// Config file location: `$XDG_CONFIG_HOME/terminal-cam/config` when that is
/// set; else under `~/Library/Application Support` on macOS, under
/// `%APPDATA%` (or else `~/.config`) on Windows, and under `~/.config`
/// elsewhere.
pub open spec fn config_file_path_spec(env: EnvView) -> Option<Seq<char>> {
    let w = is_windows(env.platform);
    match env.xdg_config_home {
        Some(base) => Some(config_under(w, base)),
        None => if env.platform == Platform::Windows && env.appdata is Some {
            Some(config_under(w, env.appdata.unwrap()))
        } else {
            match home_spec(env) {
                Some(h) => match env.platform {
                    Platform::MacOs => Some(
                        config_under(w, join_path(w, join_path(w, h, "Library"@), "Application Support"@)),
                    ),
                    _ => Some(config_under(w, join_path(w, h, ".config"@))),
                },
                None => None,
            }
        },
    }
}

fn config_under_exec(w: bool, base: &Vec<char>) -> (r: String)
    ensures
        r@ == config_under(w, base@),
{
    let a = join_str(w, base, "terminal-cam");
    string_of(&join_str(w, &a, "config"))
}

pub fn config_file_path(env: &EnvPaths) -> (r: Result<String, ConfigError>)
    ensures
        match config_file_path_spec(env@) {
            Some(v) => r matches Ok(x) && x@ == v,
            None => r == Err::<String, ConfigError>(ConfigError::HomeNotSet),
        },
{
    let w = env.platform == Platform::Windows;
    if let Some(base) = &env.xdg_config_home {
        return Ok(config_under_exec(w, &chars_of(base.as_str())));
    }
    if w {
        if let Some(base) = &env.appdata {
            return Ok(config_under_exec(w, &chars_of(base.as_str())));
        }
    }
    let h = home_dir(env)?;
    match env.platform {
        Platform::MacOs => {
            let a = join_str(w, &h, "Library");
            let b = join_str(w, &a, "Application Support");
            Ok(config_under_exec(w, &b))
        },
        _ => {
            let a = join_str(w, &h, ".config");
            Ok(config_under_exec(w, &a))
        },
    }
}

// ---- the config text ----

/// Effect of one config line on the screenshot directory: blank lines and
/// `#` comments change nothing, a line without `=` is an error, and a
/// `screenshot_dir = ...` line sets the (normalized) directory. Other keys
/// are ignored.
pub open spec fn line_effect(dir: Seq<char>, line: Seq<char>, line_no: int, env: EnvView) -> Result<Seq<char>, ConfigError> {
    let t = trim(line);
    if t.len() == 0 || t[0] == '#' {
        Ok(dir)
    } else {
        match find_from(t, '=', 0) {
            None => Err(ConfigError::InvalidLine(line_no as usize)),
            Some(p) => if trim(t.take(p)) == "screenshot_dir"@ {
                normalize_spec(trim(t.skip(p + 1)), env)
            } else {
                Ok(dir)
            },
        }
    }
}

/// The first line of `s` and what follows its newline.
pub open spec fn split_first_line(s: Seq<char>) -> (Seq<char>, Seq<char>) {
    match find_from(s, '\n', 0) {
        Some(i) => (s.take(i), s.skip(i + 1)),
        None => (s, Seq::empty()),
    }
}

/// Applies the lines of `s` in order (numbered from `line_no`), stopping at
/// the first error: the resulting directory and the error, if any.
pub open spec fn apply_text(dir: Seq<char>, s: Seq<char>, line_no: int, env: EnvView) -> (Seq<char>, Option<ConfigError>)
    decreases s.len(),
{
    if s.len() == 0 {
        (dir, None)
    } else {
        let (line, rest) = split_first_line(s);
        proof {
            lemma_find_from_bounds(s, '\n', 0);
        }
        match line_effect(dir, line, line_no, env) {
            Err(e) => (dir, Some(e)),
            Ok(d) => apply_text(d, rest, line_no + 1, env),
        }
    }
}

#[derive(Clone, Debug)]
pub struct AppConfig {
    pub screenshot_dir: String,
    path: String,
}

pub fn eq_chars(a: &Vec<char>, b: &Vec<char>) -> (r: bool)
    ensures
        r == (a@ == b@),
{
    if a.len() != b.len() {
        return false;
    }
    let mut i: usize = 0;
    while i < a.len()
        invariant
            a@.len() == b@.len(),
            i <= a@.len(),
            forall|k: int| 0 <= k < i ==> a@[k] == b@[k],
        decreases a.len() - i,
    {
        if a[i] != b[i] {
            return false;
        }
        i = i + 1;
    }
    assert(a@ =~= b@);
    true
}

impl AppConfig {
    pub closed spec fn path_spec(&self) -> Seq<char> {
        self.path@
    }

    pub closed spec fn dir_spec(&self) -> Seq<char> {
        self.screenshot_dir@
    }

    /// Defaults for the given environment: screenshots in
    /// `~/Pictures/terminal-cam`, config at the platform location.
    pub fn from_env(env: &EnvPaths) -> (r: Result<AppConfig, ConfigError>)
        ensures
            match (config_file_path_spec(env@), default_screenshot_dir_spec(env@)) {
                (Some(p), Some(d)) => r matches Ok(c) && c.path_spec() == p && c.dir_spec() == d,
                _ => r == Err::<AppConfig, ConfigError>(ConfigError::HomeNotSet),
            },
    {
        let path = config_file_path(env)?;
        let dir = default_screenshot_dir(env)?;
        Ok(AppConfig { screenshot_dir: dir, path })
    }

    /// Where the config file lives.
    pub fn path(&self) -> (p: &str)
        ensures
            p@ == self.path_spec(),
    {
        self.path.as_str()
    }

    pub fn set_screenshot_dir_from_input(&mut self, input: &str, env: &EnvPaths) -> (r: Result<(), ConfigError>)
        ensures
            final(self).path_spec() == old(self).path_spec(),
            match normalize_spec(input@, env@) {
                Ok(v) => r is Ok && final(self).dir_spec() == v,
                Err(e) => r == Err::<(), ConfigError>(e) && final(self).dir_spec() == old(self).dir_spec(),
            },
    {
        let d = normalize_dir_input(input, env)?;
        self.screenshot_dir = d;
        Ok(())
    }

    /// The screenshot directory.
    pub fn dir(&self) -> (d: &str)
        ensures
            d@ == self.dir_spec(),
    {
        self.screenshot_dir.as_str()
    }

    /// A copy of this config with the screenshot directory set from typed
    /// input; this config is left as it is.
    pub fn with_screenshot_dir(&self, input: &str, env: &EnvPaths) -> (r: Result<AppConfig, ConfigError>)
        ensures
            match normalize_spec(input@, env@) {
                Ok(v) => r matches Ok(c) && c.path_spec() == self.path_spec() && c.dir_spec() == v,
                Err(e) => r == Err::<AppConfig, ConfigError>(e),
            },
    {
        let d = normalize_dir_input(input, env)?;
        let path = self.path.clone();
        Ok(AppConfig { screenshot_dir: d, path })
    }

    /// The file body that `apply_config_text` reads back.
    pub fn config_text(&self) -> (s: String)
        ensures
            s@ == "screenshot_dir="@ + self.dir_spec() + "\n"@,
    {
        let mut s = String::new();
        push_str(&mut s, "screenshot_dir=");
        push_str(&mut s, self.screenshot_dir.as_str());
        push_str(&mut s, "\n");
        s
    }

    /// Applies the lines of a config file read from disk.
    pub fn apply_config_text(&mut self, raw: &str, env: &EnvPaths) -> (r: Result<(), ConfigError>)
        requires
            raw@.len() < usize::MAX,
        ensures
            final(self).path_spec() == old(self).path_spec(),
            final(self).dir_spec() == apply_text(old(self).dir_spec(), raw@, 1, env@).0,
            r == match apply_text(old(self).dir_spec(), raw@, 1, env@).1 {
                Some(e) => Err::<(), ConfigError>(e),
                None => Ok(()),
            },
    {
        let s = chars_of(raw);
        let key = chars_of("screenshot_dir");
        let ghost target = apply_text(self.dir_spec(), s@, 1, env@);
        let mut pos: usize = 0;
        let mut line_no: usize = 1;
        assert(s@.skip(0) =~= s@);
        while pos < s.len()
            invariant
                pos <= s@.len(),
                s@ == raw@,
                key@ == "screenshot_dir"@,
                s@.len() < usize::MAX,
                1 <= line_no <= pos + 1,
                self.path_spec() == old(self).path_spec(),
                target == apply_text(old(self).dir_spec(), raw@, 1, env@),
                apply_text(self.dir_spec(), s@.skip(pos as int), line_no as int, env@) == target,
            decreases s.len() - pos,
        {
            let ghost rest_s = s@.skip(pos as int);
            let ghost dir0 = self.dir_spec();
            let end = match find_char(&s, '\n', pos) {
                Some(i) => i,
                None => s.len(),
            };
            let ghost line = s@.subrange(pos as int, end as int);
            let ghost rest = if end < s.len() { s@.skip(end + 1) } else { Seq::<char>::empty() };
            proof {
                lemma_find_from_bounds(s@, '\n', pos as int);
                lemma_find_skip(s@, pos as int);
                assert(split_first_line(rest_s).0 =~= line);
                assert(split_first_line(rest_s).1 =~= rest);
                assert(apply_text(dir0, rest_s, line_no as int, env@) == match line_effect(dir0, line, line_no as int, env@) {
                    Err(e) => (dir0, Some(e)),
                    Ok(d) => apply_text(d, rest, line_no + 1, env@),
                });
            }
            let t = trim_range(&s, pos, end);
            assert(t@ == trim(line));
            let mut stop: Option<ConfigError> = None;
            if t.len() == 0 || t[0] == '#' {
                assert(line_effect(dir0, line, line_no as int, env@) == Ok::<Seq<char>, ConfigError>(dir0));
            } else {
                match find_char(&t, '=', 0) {
                    None => {
                        stop = Some(ConfigError::InvalidLine(line_no));
                        assert(line_effect(dir0, line, line_no as int, env@)
                            == Err::<Seq<char>, ConfigError>(ConfigError::InvalidLine(line_no)));
                    },
                    Some(p) => {
                        proof {
                            lemma_find_from_bounds(t@, '=', 0);
                        }
                        let k = trim_range(&t, 0, p);
                        assert(t@.subrange(0, p as int) =~= t@.take(p as int));
                        if eq_chars(&k, &key) {
                            let v = trim_range(&t, p + 1, t.len());
                            assert(t@.subrange(p + 1, t@.len() as int) =~= t@.skip(p + 1));
                            match normalize_chars(&v, env) {
                                Ok(d) => {
                                    self.screenshot_dir = string_of(&d);
                                    assert(line_effect(dir0, line, line_no as int, env@) == Ok::<Seq<char>, ConfigError>(d@));
                                },
                                Err(e) => {
                                    stop = Some(e);
                                    assert(line_effect(dir0, line, line_no as int, env@) == Err::<Seq<char>, ConfigError>(e));
                                },
                            }
                        } else {
                            assert(line_effect(dir0, line, line_no as int, env@) == Ok::<Seq<char>, ConfigError>(dir0));
                        }
                    },
                }
            }
            if let Some(e) = stop {
                return Err(e);
            }
            pos = if end < s.len() { end + 1 } else { s.len() };
            line_no = line_no + 1;
        }
        assert(s@.skip(pos as int) =~= Seq::<char>::empty());
        Ok(())
    }
}

/// A directory that survives being written to and read back from the
/// config file unchanged: absolute under the platform's rules, free of
/// NUL/CR/LF, no trailing white space.
pub open spec fn is_clean_dir(w: bool, d: Seq<char>) -> bool {
    &&& is_absolute(w, d)
    &&& !has_invalid_char(d)
    &&& !crate::text::is_ws(d.last())
}

proof fn lemma_trim_clean(s: Seq<char>)
    requires
        s.len() > 0,
        !crate::text::is_ws(s[0]),
        !crate::text::is_ws(s.last()),
    ensures
        trim(s) == s,
{
}

/// Reading back the text that `config_text` writes restores the screenshot
/// directory, whatever the directory was before, for every clean directory.
pub proof fn law_config_text_roundtrip(d: Seq<char>, before: Seq<char>, env: EnvView)
    requires
        is_clean_dir(is_windows(env.platform), d),
    ensures
        apply_text(before, "screenshot_dir="@ + d + "\n"@, 1, env) == (d, None::<ConfigError>),
{
    reveal_strlit("screenshot_dir=");
    reveal_strlit("screenshot_dir");
    reveal_strlit("\n");
    let k = "screenshot_dir="@;
    let line = k + d;
    let s = line + "\n"@;
    assert(k.len() == 15);
    assert(forall|i: int| 0 <= i < line.len() ==> line[i] != '\n') by {
        assert forall|i: int| 0 <= i < line.len() implies line[i] != '\n' by {
            if i >= 15 {
                assert(line[i] == d[i - 15]);
            }
        }
    }
    crate::text::lemma_find_from_some(s, '\n', 0, line.len() as int);
    assert(s.take(line.len() as int) =~= line);
    assert(s.skip((line.len() + 1) as int) =~= Seq::<char>::empty());
    assert(split_first_line(s) == (line, Seq::<char>::empty()));
    assert(line.last() == d.last());
    lemma_trim_clean(line);
    assert(line[0] == 's');
    crate::text::lemma_find_from_some(line, '=', 0, 14);
    assert(line.take(14) =~= "screenshot_dir"@);
    lemma_trim_clean(line.take(14));
    assert(line.skip(15) =~= d);
    lemma_trim_clean(d);
    assert(d != seq!['~']);
    assert(expand_home_spec(d, env) == Ok::<Seq<char>, ConfigError>(d));
    assert(normalize_spec(d, env) == Ok::<Seq<char>, ConfigError>(d));
    assert(line_effect(before, line, 1, env) == Ok::<Seq<char>, ConfigError>(d));
    assert(apply_text(d, Seq::<char>::empty(), 2, env) == (d, None::<ConfigError>));
    assert(s.len() > 0);
    assert(apply_text(before, s, 1, env) == (d, None::<ConfigError>));
}

/// `find_from` on a suffix, re-based to the suffix.
proof fn lemma_find_skip(s: Seq<char>, pos: int)
    requires
        0 <= pos <= s.len(),
    ensures
        match find_from(s, '\n', pos) {
            Some(i) => find_from(s.skip(pos), '\n', 0) == Some(i - pos),
            None => find_from(s.skip(pos), '\n', 0) is None,
        },
    decreases s.len() - pos,
{
    lemma_find_from_bounds(s, '\n', pos);
    match find_from(s, '\n', pos) {
        Some(i) => {
            crate::text::lemma_find_from_some(s.skip(pos), '\n', 0, i - pos);
        },
        None => {
            lemma_find_none_all(s, pos);
            crate::text::lemma_find_from_none(s.skip(pos), '\n', 0);
        },
    }
}

proof fn lemma_find_none_all(s: Seq<char>, pos: int)
    requires
        0 <= pos <= s.len(),
        find_from(s, '\n', pos) is None,
    ensures
        forall|k: int| pos <= k < s.len() ==> s[k] != '\n',
    decreases s.len() - pos,
{
    if pos < s.len() {
        lemma_find_none_all(s, pos + 1);
    }
}

/// The message shown for a config error; `path` names the config file.
pub open spec fn error_text_spec(e: ConfigError, path: Seq<char>) -> Seq<char> {
    match e {
        ConfigError::EmptyPath => "screenshot path cannot be empty"@,
        ConfigError::InvalidCharacter => "screenshot path contains an invalid character"@,
        ConfigError::HomeNotSet => "HOME is not set"@,
        ConfigError::CurrentDirUnavailable => "resolve current directory"@,
        ConfigError::InvalidLine(n) => "invalid config line "@ + decimal(n as nat) + " in "@ + path,
    }
}

/// The message shown for a config error; `path` names the config file.
pub fn error_text(e: ConfigError, path: &str) -> (s: String)
    ensures
        s@ == error_text_spec(e, path@),
{
    let mut s = String::new();
    match e {
        ConfigError::EmptyPath => push_str(&mut s, "screenshot path cannot be empty"),
        ConfigError::InvalidCharacter => push_str(&mut s, "screenshot path contains an invalid character"),
        ConfigError::HomeNotSet => push_str(&mut s, "HOME is not set"),
        ConfigError::CurrentDirUnavailable => push_str(&mut s, "resolve current directory"),
        ConfigError::InvalidLine(n) => {
            push_str(&mut s, "invalid config line ");
            push_decimal(&mut s, n as u64);
            push_str(&mut s, " in ");
            push_str(&mut s, path);
        },
    }
    s
}

} // verus!
