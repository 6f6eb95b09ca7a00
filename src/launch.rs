//! Choosing what to launch: which files of an install are game executables.
use vstd::prelude::*;
use crate::product::BuildOs;

verus! {

/// The lower-case form of a text.
pub uninterp spec fn lower_of(s: Seq<char>) -> Seq<char>;

/// Relies on `str::to_lowercase`: the lower-case form of the text, a
/// function of its characters alone.
#[verifier::external_body]
fn lowercase(s: &str) -> (r: String)
    ensures
        r@ == lower_of(s@),
{
    s.to_lowercase()
}

/// Whether `t` occurs in `s`.
pub open spec fn contains_text(s: Seq<char>, t: Seq<char>) -> bool {
    exists|i: int| 0 <= i && i + t.len() <= s.len() && #[trigger] s.subrange(i, i + t.len()) == t
}

/// Whether a file name has the extension `exe`: it ends in `.exe` with
/// something before the dot.
pub open spec fn has_exe_extension(name: Seq<char>) -> bool {
    name.len() >= 5 && name.subrange(name.len() - 4, name.len() as int) == ".exe"@
}

/// Whether `t` occurs in `s` at position `i`.
fn occurs_at(s: &str, t: &str, i: usize) -> (r: bool)
    requires
        i + t@.len() <= s@.len(),
    ensures
        r == (s@.subrange(i as int, i + t@.len()) == t@),
{
    let n = t.unicode_len();
    let sn = s.unicode_len();
    let mut k: usize = 0;
    while k < n
        invariant
            n == t@.len(),
            sn == s@.len(),
            i + n <= s@.len(),
            k <= n,
            forall|j: int| 0 <= j < k ==> s@[i + j] == t@[j],
        decreases n - k,
    {
        if s.get_char(i + k) != t.get_char(k) {
            assert(s@.subrange(i as int, i + n)[k as int] != t@[k as int]);
            return false;
        }
        k = k + 1;
    }
    assert(s@.subrange(i as int, i + n) =~= t@);
    true
}

/// Whether `t` occurs in `s`.
pub fn contains(s: &str, t: &str) -> (r: bool)
    ensures
        r == contains_text(s@, t@),
{
    let sn = s.unicode_len();
    let tn = t.unicode_len();
    if tn > sn {
        return false;
    }
    if tn == 0 {
        assert(s@.subrange(0int, 0int + t@.len()) =~= t@);
        return true;
    }
    let mut i: usize = 0;
    while i <= sn - tn
        invariant
            sn == s@.len(),
            tn == t@.len(),
            1 <= tn <= sn,
            i <= sn - tn + 1,
            forall|j: int| 0 <= j < i ==> #[trigger] s@.subrange(j, j + tn) != t@,
        decreases sn - tn + 1 - i,
    {
        if occurs_at(s, t, i) {
            return true;
        }
        i = i + 1;
    }
    false
}

/// Whether a file is taken for the game's executable, given its name and
/// the lower-case form of the name: an `.exe` that is neither a setup nor
/// an uninstaller.
pub fn executable_matches(file_name: &str, lowered: &str) -> (r: bool)
    ensures
        r == (has_exe_extension(file_name@) && !contains_text(lowered@, "setup"@) && !contains_text(
            lowered@,
            "unins"@,
        )),
{
    proof {
        reveal_strlit(".exe");
    }
    let n = file_name.unicode_len();
    let ext = n >= 5 && occurs_at(file_name, ".exe", n - 4);
    ext && !contains(lowered, "setup") && !contains(lowered, "unins")
}

/// Whether a file is taken for the game's executable: an `.exe` whose
/// lower-case name holds neither `setup` nor `unins`.
pub fn is_game_executable(file_name: &str) -> (r: bool)
    ensures
        r == (has_exe_extension(file_name@) && !contains_text(lower_of(file_name@), "setup"@)
            && !contains_text(lower_of(file_name@), "unins"@)),
{
    let lowered = lowercase(file_name);
    executable_matches(file_name, lowered.as_str())
}

/// The path with a leading `<slug>\` removed; the path itself where it does
/// not start so.
pub open spec fn without_slug_dir(path: Seq<char>, slug: Seq<char>) -> Seq<char> {
    let p = slug + seq!['\\'];
    if p.len() <= path.len() && path.subrange(0, p.len() as int) == p {
        path.subrange(p.len() as int, path.len() as int)
    } else {
        path
    }
}

/// Relies on `regex::Regex::new` over the slug as `regex::escape` quotes it,
/// anchored and followed by a backslash, and on `Regex::replace`: that
/// pattern matches exactly a leading `<slug>\`, which is removed. Nothing
/// where the pattern cannot be built.
#[verifier::external_body]
fn strip_slug_dir(path: &str, slug: &str) -> (r: Option<String>)
    ensures
        r matches Some(s) ==> s@ == without_slug_dir(path@, slug@),
{
    let re = regex::Regex::new(&format!("^{}\\\\", regex::escape(slug))).ok()?;
    Some(re.replace(path, "").into_owned())
}

/// The path of a game's executable relative to its install directory, from
/// the path that the store gives, which may start with the game's slug as a
/// directory (`<slug>\`): that directory is dropped. The path is kept as it
/// is where the pattern for the slug cannot be built.
pub fn relative_exe_path(exe_path: &str, slug: &str) -> (r: String)
    ensures
        r@ == without_slug_dir(exe_path@, slug@) || r@ == exe_path@,
{
    match strip_slug_dir(exe_path, slug) {
        Some(s) => s,
        None => exe_path.to_owned(),
    }
}

/// The words of a command line as a POSIX shell splits them; `None` where
/// its quoting is unbalanced.
pub uninterp spec fn shell_words_of(s: Seq<char>) -> Option<Seq<Seq<char>>>;

/// Relies on `shlex::split`: the words of a command line under POSIX shell
/// quoting, or nothing where the quoting is unbalanced.
#[verifier::external_body]
fn shell_split(s: &str) -> (r: Option<Vec<String>>)
    ensures
        match shell_words_of(s@) {
            Some(w) => r matches Some(v) && v@.map_values(|x: String| x@) == w,
            None => r is None,
        },
{
    shlex::split(s)
}

/// How a build is run under WINE: `None` where it cannot start, a Windows
/// build with no WINE binary given and WINE not switched off; else whether
/// WINE runs it, which it does for a Windows build unless switched off.
pub fn wine_mode(os: BuildOs, has_wine_bin: bool, no_wine: bool) -> (r: Option<bool>)
    ensures
        r == (if os == BuildOs::Windows && !has_wine_bin && !no_wine {
            None
        } else {
            Some(os == BuildOs::Windows && !no_wine)
        }),
{
    let windows = os == BuildOs::Windows;
    if windows && !has_wine_bin && !no_wine {
        None
    } else {
        Some(windows && !no_wine)
    }
}

/// A program to start and its arguments.
#[derive(Debug)]
pub struct LaunchCommand {
    pub program: String,
    pub args: Vec<String>,
}

/// What a sequence of strings holds.
pub open spec fn texts(s: Seq<String>) -> Seq<Seq<char>> {
    s.map_values(|x: String| x@)
}

/// The command that starts a game: the first word of the wrapper where it
/// has any, else the WINE binary where WINE is used, else the executable;
/// then the wrapper's other words, then the executable where a wrapper is
/// given or WINE is used.
pub open spec fn command_of(exe: Seq<char>, wrapper: Seq<char>, words: Seq<Seq<char>>, use_wine: bool, wine_bin: Seq<char>) -> (Seq<char>, Seq<Seq<char>>) {
    let program = if words.len() > 0 {
        words[0]
    } else if use_wine {
        wine_bin
    } else {
        exe
    };
    let rest = if words.len() > 1 {
        words.subrange(1, words.len() as int)
    } else {
        Seq::empty()
    };
    (program, if wrapper.len() > 0 || use_wine {
        rest.push(exe)
    } else {
        rest
    })
}

/// Builds the command that starts a game from the words of the wrapper
/// command line.
pub fn launch_command(exe: &str, wrapper: &str, words: &[String], use_wine: bool, wine_bin: &str) -> (r: LaunchCommand)
    ensures
        (r.program@, texts(r.args@)) == command_of(exe@, wrapper@, texts(words@), use_wine, wine_bin@),
{
    let program = if words.len() > 0 {
        words[0].clone()
    } else if use_wine {
        wine_bin.to_owned()
    } else {
        exe.to_owned()
    };
    let mut args: Vec<String> = Vec::new();
    if words.len() > 1 {
        let mut i: usize = 1;
        while i < words.len()
            invariant
                1 <= i <= words@.len(),
                texts(args@) == texts(words@).subrange(1, i as int),
            decreases words@.len() - i,
        {
            let w = words[i].clone();
            let ghost before = args@;
            args.push(w);
            assert(texts(args@) =~= texts(before).push(w@));
            i = i + 1;
            assert(texts(args@) =~= texts(words@).subrange(1, i as int));
        }
    } else {
        assert(texts(args@) =~= Seq::<Seq<char>>::empty());
    }
    if wrapper.unicode_len() > 0 || use_wine {
        args.push(exe.to_owned());
    }
    let r = LaunchCommand { program, args };
    assert(texts(r.args@) =~= command_of(exe@, wrapper@, texts(words@), use_wine, wine_bin@).1);
    r
}

/// Splits the wrapper command line and builds the command that starts the
/// game; `None` where the wrapper's quoting is unbalanced.
pub fn game_command(exe: &str, wrapper: &str, use_wine: bool, wine_bin: &str) -> (r: Option<LaunchCommand>)
    ensures
        wrapper@.len() > 0 && shell_words_of(wrapper@) is None ==> r is None,
        r matches Some(c) ==> (c.program@, texts(c.args@)) == command_of(
            exe@,
            wrapper@,
            if wrapper@.len() > 0 {
                shell_words_of(wrapper@)->0
            } else {
                Seq::empty()
            },
            use_wine,
            wine_bin@,
        ),
        wrapper@.len() == 0 || shell_words_of(wrapper@) is Some ==> r is Some,
{
    if wrapper.unicode_len() == 0 {
        let none: Vec<String> = Vec::new();
        assert(texts(none@) =~= Seq::<Seq<char>>::empty());
        return Some(launch_command(exe, wrapper, none.as_slice(), use_wine, wine_bin));
    }
    match shell_split(wrapper) {
        None => None,
        Some(words) => Some(launch_command(exe, wrapper, words.as_slice(), use_wine, wine_bin)),
    }
}

} // verus!
