//! What a session runs and where: profiles, programs, and the folder it starts in.
use vstd::prelude::*;
use crate::paths::{
    final_component, law_a_bare_name_is_its_final_component,
    law_a_separator_comes_before_the_final_component,
    law_final_component_follows_the_last_separator, law_final_component_holds_no_separator,
    program_name,
};
use crate::session::failure::{
    profile_kind, profile_phrase, ProfileError, SessionError, SpawnError, MAX_WORKING_DIRECTORY,
};
use crate::text::{
    ascii_lower, begins_with, chars_of, eq_ignoring_case,
    law_only_the_case_of_letters_is_ignored, law_units_add_up,
    matches_ignoring_case, same, same_ignoring_case, starts_with, utf16_len,
};
use crate::wire::Platform;

verus! {

/// The shells a client can name.
#[derive(Debug)]
pub enum WireProfile {
    /// PowerShell 7.
    Pwsh,
    /// The Command Prompt.
    Cmd,
    /// Git Bash.
    GitBash,
    /// A WSL distribution, or the default one.
    Wsl {
        /// Which.
        distro: Option<String>,
    },
}

/// The shells the pty layer spawns.
#[derive(Debug)]
pub enum ShellProfile {
    /// The user's login shell.
    LoginShell,
    /// PowerShell 7.
    PowerShell7,
    /// The Command Prompt.
    CommandPrompt,
    /// Git Bash.
    GitBash,
    /// A WSL distribution, or the default one.
    Wsl {
        /// Which.
        distro: Option<String>,
    },
}

impl Clone for WireProfile {
    fn clone(&self) -> (out: Self)
        ensures
            out == *self,
    {
        match self {
            WireProfile::Pwsh => WireProfile::Pwsh,
            WireProfile::Cmd => WireProfile::Cmd,
            WireProfile::GitBash => WireProfile::GitBash,
            WireProfile::Wsl { distro } => WireProfile::Wsl {
                distro: match distro {
                    Some(name) => Some(name.clone()),
                    None => None,
                },
            },
        }
    }
}

/// The shell a wire profile asks for; none takes the platform's default.
pub open spec fn profile_for(profile: Option<WireProfile>, default: ShellProfile) -> ShellProfile {
    match profile {
        None => default,
        Some(WireProfile::Pwsh) => ShellProfile::PowerShell7,
        Some(WireProfile::Cmd) => ShellProfile::CommandPrompt,
        Some(WireProfile::GitBash) => ShellProfile::GitBash,
        Some(WireProfile::Wsl { distro }) => ShellProfile::Wsl { distro },
    }
}

/// The shell a wire profile asks for; none takes `default`, the platform's own.
pub fn core_profile(profile: Option<WireProfile>, default: ShellProfile) -> (out: ShellProfile)
    ensures
        out == profile_for(profile, default),
{
    match profile {
        None => default,
        Some(WireProfile::Pwsh) => ShellProfile::PowerShell7,
        Some(WireProfile::Cmd) => ShellProfile::CommandPrompt,
        Some(WireProfile::GitBash) => ShellProfile::GitBash,
        Some(WireProfile::Wsl { distro }) => ShellProfile::Wsl { distro },
    }
}

/// Whether one of the menu's shells can be launched, and why not.
#[derive(Debug)]
pub struct ProfileAvailability {
    /// The shell.
    pub profile: WireProfile,
    /// Why it cannot be launched; `None` when it can.
    pub unavailable: Option<String>,
}

/// The shells a menu offers, in order.
pub open spec fn menu() -> Seq<WireProfile> {
    seq![
        WireProfile::Pwsh,
        WireProfile::Cmd,
        WireProfile::GitBash,
        WireProfile::Wsl { distro: None },
    ]
}

/// The shells a menu offers, in order: WSL once, as the distribution a bare `wsl.exe` opens.
pub fn menu_profiles() -> (out: Vec<WireProfile>)
    ensures
        out@ == menu(),
{
    let out: Vec<WireProfile> = vec![
        WireProfile::Pwsh,
        WireProfile::Cmd,
        WireProfile::GitBash,
        WireProfile::Wsl { distro: None },
    ];
    assert(out@ =~= menu());
    out
}

/// Which of the menu's shells can be launched, and why not for the rest, given what asking
/// each of [`menu_profiles`] answered. A reason is a phrase that names no file.
pub fn profile_availability(refusals: &Vec<Option<ProfileError>>) -> (out: Vec<
    ProfileAvailability,
>)
    requires
        refusals@.len() == menu().len(),
    ensures
        out@.len() == menu().len(),
        forall|i: int|
            0 <= i < out@.len() ==> (#[trigger] out@[i]).profile == menu()[i] && (
            match refusals@[i] {
                Some(err) => out@[i].unavailable is Some && out@[i].unavailable->0@
                    == profile_phrase(err),
                None => out@[i].unavailable is None,
            }),
{
    let profiles = menu_profiles();
    let mut out: Vec<ProfileAvailability> = Vec::new();
    let mut i: usize = 0;
    while i < profiles.len()
        invariant
            i <= profiles.len(),
            profiles@ == menu(),
            refusals@.len() == menu().len(),
            out@.len() == i,
            forall|k: int|
                0 <= k < i ==> (#[trigger] out@[k]).profile == menu()[k] && (match refusals@[k] {
                    Some(err) => out@[k].unavailable is Some && out@[k].unavailable->0@
                        == profile_phrase(err),
                    None => out@[k].unavailable is None,
                }),
        decreases profiles.len() - i,
    {
        let unavailable = match &refusals[i] {
            Some(err) => Some(profile_kind(err)),
            None => None,
        };
        out.push(ProfileAvailability { profile: profiles[i].clone(), unavailable });
        i = i + 1;
    }
    out
}

/// What a session runs.
#[derive(Debug)]
pub enum SessionProgram {
    /// A shell, resolved when it is spawned.
    Shell(ShellProfile),
    /// A program already resolved.
    Resolved {
        /// Its command line; the first is the program itself.
        argv: Vec<String>,
        /// What to call it.
        label: String,
    },
}

/// Whether a program runs through `cmd.exe`: a Command Prompt, or a program whose command line
/// starts it.
pub open spec fn through_cmd(program: SessionProgram) -> bool {
    match program {
        SessionProgram::Shell(profile) => profile is CommandPrompt,
        SessionProgram::Resolved { argv, .. } => argv@.len() > 0 && same_ignoring_case(
            final_component(argv@[0]@),
            "cmd.exe"@,
        ),
    }
}

/// Whether `program` runs through `cmd.exe`.
pub fn runs_through_cmd(program: &SessionProgram) -> (out: bool)
    ensures
        out == through_cmd(*program),
{
    match program {
        SessionProgram::Shell(profile) => match profile {
            ShellProfile::CommandPrompt => true,
            _ => false,
        },
        SessionProgram::Resolved { argv, .. } => {
            argv.len() > 0 && eq_ignoring_case(program_name(argv[0].as_str()).as_str(), "cmd.exe")
        },
    }
}

/// A folder the operating system has resolved.
#[derive(Debug)]
pub struct CanonicalPath {
    /// The folder as it is spelled.
    pub text: String,
    /// Its components, from the root down.
    pub components: Vec<String>,
}

impl Clone for CanonicalPath {
    fn clone(&self) -> (out: Self)
        ensures
            out.text@ == self.text@,
            crate::text::views(out.components@) == crate::text::views(self.components@),
    {
        let mut components: Vec<String> = Vec::new();
        let mut i: usize = 0;
        while i < self.components.len()
            invariant
                i <= self.components.len(),
                components@.len() == i,
                forall|k: int| 0 <= k < i ==> (#[trigger] components@[k])@ == self.components@[k]@,
            decreases self.components.len() - i,
        {
            components.push(self.components[i].clone());
            i = i + 1;
        }
        assert(crate::text::views(components@) =~= crate::text::views(self.components@));
        CanonicalPath { text: self.text.clone(), components }
    }
}

impl CanonicalPath {
    /// Whether `other` is this folder or inside it.
    pub open spec fn holds(&self, other: &CanonicalPath) -> bool {
        self.components@.len() <= other.components@.len() && forall|i: int|
            0 <= i < self.components@.len() ==> (#[trigger] self.components@[i])@
                == other.components@[i]@
    }

    /// Whether `other` is this folder or inside it.
    pub fn contains(&self, other: &CanonicalPath) -> (out: bool)
        ensures
            out == self.holds(other),
    {
        if self.components.len() > other.components.len() {
            return false;
        }
        let mut i: usize = 0;
        while i < self.components.len()
            invariant
                i <= self.components.len() <= other.components.len(),
                forall|k: int|
                    0 <= k < i ==> (#[trigger] self.components@[k])@ == other.components@[k]@,
            decreases self.components.len() - i,
        {
            if !same(self.components[i].as_str(), other.components[i].as_str()) {
                return false;
            }
            i = i + 1;
        }
        true
    }
}

/// Whether `at` is the deepest of `folders` containing `path`: the one with the most
/// components, the last of them where two have as many.
pub open spec fn deepest(folders: Seq<CanonicalPath>, path: CanonicalPath, at: int) -> bool {
    &&& 0 <= at < folders.len()
    &&& folders[at].holds(&path)
    &&& forall|i: int|
        0 <= i < folders.len() && (#[trigger] folders[i]).holds(&path)
            ==> folders[i].components@.len() < folders[at].components@.len() || (
        folders[i].components@.len() == folders[at].components@.len() && i <= at)
}

/// The index of the deepest of `folders` containing `path`, or `None` when none of them does.
pub fn deepest_containing(folders: &Vec<CanonicalPath>, path: &CanonicalPath) -> (out: Option<
    usize,
>)
    ensures
        out is Some ==> deepest(folders@, *path, out->0 as int),
        out is None ==> forall|i: int| 0 <= i < folders@.len() ==> !(#[trigger] folders@[i]).holds(path),
{
    let mut best: Option<usize> = None;
    let mut i: usize = 0;
    while i < folders.len()
        invariant
            i <= folders.len(),
            best is Some ==> best->0 < i && deepest(folders@.take(i as int), *path, best->0 as int),
            best is None ==> forall|k: int| 0 <= k < i ==> !(#[trigger] folders@[k]).holds(path),
        decreases folders.len() - i,
    {
        let ghost head = folders@.take(i as int);
        let ghost next = folders@.take(i + 1);
        assert forall|k: int| 0 <= k < i implies #[trigger] next[k] == head[k] by {}
        assert(next[i as int] == folders@[i as int]);
        if folders[i].contains(path) {
            match best {
                Some(at) => {
                    assert(next[at as int] == head[at as int]);
                    if folders[i].components.len() >= folders[at].components.len() {
                        best = Some(i);
                    }
                },
                None => {
                    best = Some(i);
                },
            }
        }
        i = i + 1;
    }
    assert(folders@.take(i as int) =~= folders@);
    best
}

/// A path belongs to at most one folder, however they nest.
pub proof fn law_the_deepest_folder_is_unique(
    folders: Seq<CanonicalPath>,
    path: CanonicalPath,
    a: int,
    b: int,
)
    requires
        deepest(folders, path, a),
        deepest(folders, path, b),
    ensures
        a == b,
{
    assert(folders[a].holds(&path) && folders[b].holds(&path));
}

/// What resolving a folder found wrong with it.
#[derive(Debug)]
pub enum PathError {
    /// It does not exist.
    Missing,
    /// It could not be read; the text is the operating system's and names no path.
    Unreadable(String),
    /// It is not a directory.
    NotADirectory,
}

/// Why a working directory is refused, as a sentence that names no path; `None` when it is not.
pub open spec fn cwd_refusal(
    absolute: bool,
    resolved: Result<CanonicalPath, PathError>,
) -> Option<Seq<char>> {
    if !absolute {
        Some("a working directory must be absolute"@)
    } else {
        match resolved {
            Ok(_) => None,
            Err(PathError::Missing) => Some("it does not exist"@),
            Err(PathError::Unreadable(said)) => Some(said@),
            Err(PathError::NotADirectory) => Some("it is not a directory"@),
        }
    }
}

/// Confine a requested working directory: absolute, existing, and a directory. `absolute` and
/// `resolved` are what the operating system says of it; the latter is read only of an absolute
/// path.
pub fn confine_cwd(
    path: &str,
    absolute: bool,
    resolved: Result<CanonicalPath, PathError>,
) -> (out: Result<CanonicalPath, SessionError>)
    ensures
        out is Ok <==> cwd_refusal(absolute, resolved) is None,
        out is Ok ==> resolved is Ok && out->Ok_0 == resolved->Ok_0,
        out matches Err(err) ==> (err matches SessionError::PathRefused { path: refused, reason }
            && refused@ == path@ && Some(reason@) == cwd_refusal(absolute, resolved)),
{
    if !absolute {
        return Err(
            SessionError::PathRefused {
                path: path.to_owned(),
                reason: "a working directory must be absolute".to_owned(),
            },
        );
    }
    match resolved {
        Ok(folder) => Ok(folder),
        Err(err) => {
            let reason = match err {
                PathError::Missing => "it does not exist".to_owned(),
                PathError::Unreadable(said) => said,
                PathError::NotADirectory => "it is not a directory".to_owned(),
            };
            Err(SessionError::PathRefused { path: path.to_owned(), reason })
        },
    }
}

/// Whether a text begins with `prefix`, ASCII letters compared without their case.
pub open spec fn begins_ignoring_case(s: Seq<char>, prefix: Seq<char>) -> bool {
    prefix.len() <= s.len() && same_ignoring_case(s.subrange(0, prefix.len() as int), prefix)
}

/// A network folder's spelling: `\\server\share\…`, or `\\?\UNC\server\share\…`.
pub open spec fn network_spelling(s: Seq<char>) -> bool {
    begins_ignoring_case(s, "\\\\?\\UNC\\"@) || (begins_ignoring_case(s, "\\\\"@)
        && !begins_ignoring_case(s, "\\\\?\\"@) && !begins_ignoring_case(s, "\\\\.\\"@))
}

/// Whether `path` is a network folder, read from its spelling, the same way on both platforms.
pub fn is_network_folder(path: &str) -> (out: bool)
    ensures
        out == network_spelling(path@),
{
    let cs = chars_of(path);
    matches_ignoring_case(&cs, 0, "\\\\?\\UNC\\") || (matches_ignoring_case(&cs, 0, "\\\\")
        && !matches_ignoring_case(&cs, 0, "\\\\?\\") && !matches_ignoring_case(
        &cs,
        0,
        "\\\\.\\",
    ))
}

/// A folder's length the way Windows measures a working directory: UTF-16 units, in the
/// spelling without the `\\?\` prefix.
pub open spec fn windows_measure(s: Seq<char>) -> nat {
    if begins_ignoring_case(s, "\\\\?\\UNC\\"@) {
        utf16_len("\\\\"@ + s.skip(8))
    } else if begins_with(s, "\\\\?\\"@) {
        utf16_len(s.skip(4))
    } else {
        utf16_len(s)
    }
}

proof fn lemma_utf16_append(a: Seq<char>, b: Seq<char>)
    ensures
        utf16_len(a + b) == utf16_len(a) + utf16_len(b),
    decreases b.len(),
{
    if b.len() == 0 {
        assert(a + b =~= a);
    } else {
        lemma_utf16_append(a, b.drop_last());
        assert((a + b).drop_last() =~= a + b.drop_last());
    }
}

/// A text takes at least one UTF-16 unit for each character.
proof fn lemma_utf16_counts(s: Seq<char>)
    ensures
        utf16_len(s) >= s.len(),
    decreases s.len(),
{
    if s.len() > 0 {
        lemma_utf16_counts(s.drop_last());
    }
}

/// A text takes no more UTF-16 units than UTF-8 bytes.
proof fn lemma_utf16_fits_in_utf8(s: Seq<char>)
    ensures
        utf16_len(s) <= vstd::utf8::encode_utf8(s).len(),
    decreases s.len(),
{
    if s.len() > 0 {
        let rest = s.drop_first();
        lemma_utf16_fits_in_utf8(rest);
        lemma_utf16_append(seq![s[0]], rest);
        assert(seq![s[0]] + rest =~= s);
        assert(seq![s[0]].drop_last() =~= Seq::empty());
        assert(utf16_len(seq![s[0]].drop_last()) == 0);
    }
}

/// How many UTF-16 units `chars[from..]` takes.
fn units_from(chars: &Vec<char>, from: usize) -> (out: usize)
    requires
        from <= chars.len(),
        utf16_len(chars@.skip(from as int)) <= usize::MAX,
    ensures
        out == utf16_len(chars@.skip(from as int)),
{
    let mut units: usize = 0;
    let mut i: usize = from;
    let ghost rest = chars@.skip(from as int);
    while i < chars.len()
        invariant
            from <= i <= chars.len(),
            rest == chars@.skip(from as int),
            utf16_len(rest) <= usize::MAX,
            units == utf16_len(rest.take(i - from)),
        decreases chars.len() - i,
    {
        proof {
            let next = rest.take(i - from + 1);
            assert(next.drop_last() =~= rest.take(i - from));
            lemma_utf16_append(next, rest.skip(i - from + 1));
            assert(next + rest.skip(i - from + 1) =~= rest);
        }
        let c: char = chars[i];
        if (c as u32) >= 0x1_0000 {
            units = units + 2;
        } else {
            units = units + 1;
        }
        i = i + 1;
    }
    assert(rest.take(i - from) =~= rest);
    units
}

/// `path`'s length the way Windows measures a working directory.
pub fn windows_length(path: &str) -> (out: usize)
    ensures
        out == windows_measure(path@),
{
    let cs = chars_of(path);
    let bytes: usize = path.as_bytes().len();
    proof {
        lemma_utf16_fits_in_utf8(path@);
        assert(utf16_len(path@) <= bytes);
        reveal_strlit("\\\\?\\UNC\\");
        reveal_strlit("\\\\?\\");
        reveal_strlit("\\\\");
        lemma_utf16_append("\\\\"@, path@.skip(8));
        if path@.len() >= 8 {
            lemma_utf16_append(path@.take(8), path@.skip(8));
            assert(path@.take(8) + path@.skip(8) =~= path@);
            lemma_utf16_counts(path@.take(8));
        }
        if path@.len() >= 4 {
            lemma_utf16_append(path@.take(4), path@.skip(4));
            assert(path@.take(4) + path@.skip(4) =~= path@);
        }
        let two = "\\\\"@;
        assert(two.drop_last().drop_last() =~= Seq::empty());
        assert(utf16_len(two) == 2) by {
            reveal_with_fuel(utf16_len, 3);
        }
        assert(path@.skip(0) =~= path@);
    }
    if matches_ignoring_case(&cs, 0, "\\\\?\\UNC\\") {
        let rest = units_from(&cs, 8);
        rest + 2
    } else if starts_with(path, "\\\\?\\") {
        units_from(&cs, 4)
    } else {
        units_from(&cs, 0)
    }
}

/// A spawn that failed, told apart from one Windows refused for its folder's length.
///
/// Inferred from the length, and only after the spawn has failed, so that no folder is refused
/// that would have started.
pub fn spawn_refusal(err: SpawnError, cwd: Option<&CanonicalPath>, platform: Platform) -> (out:
    SessionError)
    ensures
        out == (if platform == Platform::Windows && err is Spawn && cwd is Some && windows_measure(
            cwd->0.text@,
        ) > MAX_WORKING_DIRECTORY {
            SessionError::FolderTooLong {
                length: windows_measure(cwd->0.text@) as usize,
                source: err,
            }
        } else {
            SessionError::Spawn(err)
        }),
{
    let is_spawn = match &err {
        SpawnError::Spawn { .. } => true,
        _ => false,
    };
    if platform == Platform::Windows && is_spawn {
        if let Some(folder) = cwd {
            let length = windows_length(folder.text.as_str());
            if length > MAX_WORKING_DIRECTORY {
                return SessionError::FolderTooLong { length, source: err };
            }
        }
    }
    SessionError::Spawn(err)
}

/// Each shell a client names is the shell that is spawned, and what it does not name is left to
/// the platform's default.
pub proof fn law_the_shell_named_is_the_shell_spawned(
    profile: Option<WireProfile>,
    default: ShellProfile,
)
    ensures
        ({
            let shell = profile_for(profile, default);
            match profile {
                None => shell == default,
                Some(WireProfile::Pwsh) => shell is PowerShell7,
                Some(WireProfile::Cmd) => shell is CommandPrompt,
                Some(WireProfile::GitBash) => shell is GitBash,
                Some(WireProfile::Wsl { distro }) => shell is Wsl && shell->distro == distro,
            }
        }),
{
}

/// Two shells that a client tells apart are never the same shell, and a named one does not
/// depend on the default.
pub proof fn law_different_names_are_different_shells(
    one: WireProfile,
    two: WireProfile,
    default: ShellProfile,
    other: ShellProfile,
)
    ensures
        profile_for(Some(one), default) == profile_for(Some(two), default) ==> one == two,
        profile_for(Some(one), default) == profile_for(Some(one), other),
        !(profile_for(Some(one), default) is LoginShell),
{
}

/// The menu offers each kind of shell once.
pub proof fn law_the_menu_offers_each_shell_once()
    ensures
        menu().len() == 4,
        forall|i: int, j: int| 0 <= i < j < menu().len() ==> menu()[i] != menu()[j],
        forall|p: WireProfile| !(p is Wsl) ==> #[trigger] menu().contains(p),
        exists|i: int| 0 <= i < menu().len() && #[trigger] menu()[i] is Wsl,
{
    assert(menu()[0] is Pwsh && menu()[1] is Cmd && menu()[2] is GitBash && menu()[3] is Wsl);
}

/// A shell runs through the Command Prompt if it is one; a command line does if its program is
/// called `cmd.exe`, in whatever case and in whatever folder.
pub proof fn law_what_runs_through_cmd(program: SessionProgram)
    ensures
        program matches SessionProgram::Shell(profile) ==> (through_cmd(program)
            <==> profile is CommandPrompt),
        program matches SessionProgram::Resolved { argv, .. } ==> (through_cmd(program)
            <==> argv@.len() > 0 && called_cmd(argv@[0]@)),
{
    if let SessionProgram::Resolved { argv, .. } = program {
        if argv@.len() > 0 {
            let s = argv@[0]@;
            let n = s.len() as int;
            reveal_strlit("cmd.exe");
            law_final_component_holds_no_separator(s);
            if called_cmd(s) {
                let name = s.skip(n - 7);
                assert(name[0] == s[n - 7] && name[1] == s[n - 6] && name[2] == s[n - 5]);
                assert(name[3] == s[n - 4] && name[4] == s[n - 3] && name[5] == s[n - 2]);
                assert(name[6] == s[n - 1]);
                assert(same_ignoring_case(name, "cmd.exe"@));
                if n > 7 {
                    law_final_component_follows_the_last_separator(s.take(n - 8), s[n - 8], name);
                    assert(s =~= s.take(n - 8).push(s[n - 8]) + name);
                } else {
                    assert(s =~= name);
                    law_a_bare_name_is_its_final_component(s);
                }
            }
            if through_cmd(program) {
                let last = final_component(s);
                assert(last.len() == 7);
                law_a_separator_comes_before_the_final_component(s);
                assert(last[0] == s[n - 7] && last[1] == s[n - 6] && last[2] == s[n - 5]);
                assert(last[3] == s[n - 4] && last[4] == s[n - 3] && last[5] == s[n - 2]);
                assert(last[6] == s[n - 1]);
                assert(s[n - 4] == '.') by {
                    law_only_the_case_of_letters_is_ignored(s[n - 4], '.');
                }
            }
        }
    }
}

/// A path whose last seven characters spell `cmd.exe` in some case, with a separator before
/// them unless they are all of it.
pub open spec fn called_cmd(s: Seq<char>) -> bool {
    let n = s.len() as int;
    &&& n >= 7
    &&& ascii_lower(s[n - 7]) == 'c' && ascii_lower(s[n - 6]) == 'm' && ascii_lower(s[n - 5]) == 'd'
    &&& s[n - 4] == '.'
    &&& ascii_lower(s[n - 3]) == 'e' && ascii_lower(s[n - 2]) == 'x' && ascii_lower(s[n - 1]) == 'e'
    &&& n == 7 || s[n - 8] == '/' || s[n - 8] == '\\'
}

/// Containment is what it says: a folder holds itself, what is in a folder that it holds, and
/// nothing that is shallower than it.
pub proof fn law_containment_is_an_order(
    outer: CanonicalPath,
    middle: CanonicalPath,
    inner: CanonicalPath,
)
    ensures
        outer.holds(&outer),
        outer.holds(&middle) && middle.holds(&inner) ==> outer.holds(&inner),
        outer.holds(&inner) ==> outer.components@.len() <= inner.components@.len(),
        outer.holds(&inner) && inner.holds(&outer) ==> crate::text::views(outer.components@)
            == crate::text::views(inner.components@),
{
    if outer.holds(&inner) && inner.holds(&outer) {
        assert(crate::text::views(outer.components@) =~= crate::text::views(inner.components@));
    }
    if outer.holds(&middle) && middle.holds(&inner) {
        assert forall|i: int| 0 <= i < outer.components@.len() implies (
        #[trigger] outer.components@[i])@ == inner.components@[i]@ by {
            assert(middle.components@[i]@ == inner.components@[i]@);
        }
    }
}

/// The folder a path belongs to holds it, and no folder that holds it is deeper.
pub proof fn law_the_deepest_folder_holds_the_path(
    folders: Seq<CanonicalPath>,
    path: CanonicalPath,
    at: int,
    other: int,
)
    requires
        deepest(folders, path, at),
        0 <= other < folders.len(),
        folders[other].holds(&path),
    ensures
        folders[at].holds(&path),
        folders[other].components@.len() <= folders[at].components@.len(),
        folders[other].holds(&folders[at]),
        folders[other].components@.len() == folders[at].components@.len() ==> other <= at,
{
    assert forall|i: int| 0 <= i < folders[other].components@.len() implies (
    #[trigger] folders[other].components@[i])@ == folders[at].components@[i]@ by {
        assert(folders[at].components@[i]@ == path.components@[i]@);
    }
}

/// A working directory is taken only if it is absolute and was resolved, and every refusal says
/// why.
pub proof fn law_a_folder_is_taken_only_if_it_is_there(
    absolute: bool,
    resolved: Result<CanonicalPath, PathError>,
)
    ensures
        cwd_refusal(absolute, resolved) is None <==> absolute && resolved is Ok,
        resolved matches Err(PathError::Unreadable(said)) ==> absolute ==> cwd_refusal(
            absolute,
            resolved,
        ) == Some(said@),
        absolute && resolved == Err::<CanonicalPath, PathError>(PathError::Missing)
            ==> cwd_refusal(absolute, resolved) == Some("it does not exist"@),
        absolute && resolved == Err::<CanonicalPath, PathError>(PathError::NotADirectory)
            ==> cwd_refusal(absolute, resolved) == Some("it is not a directory"@),
        !absolute ==> cwd_refusal(absolute, resolved) == cwd_refusal(
            false,
            Err(PathError::Missing),
        ),
{
}

/// A folder is on the network if it begins with two backslashes that open neither a verbatim
/// path nor a device, or is the verbatim spelling of one that does.
pub proof fn law_what_is_a_network_folder(s: Seq<char>)
    ensures
        network_spelling(s) <==> ({
            let rooted = s.len() >= 2 && s[0] == '\\' && s[1] == '\\';
            let special = s.len() >= 4 && (s[2] == '?' || s[2] == '.') && s[3] == '\\';
            let shared = s.len() >= 8 && s[2] == '?' && ascii_lower(s[4]) == 'u' && ascii_lower(
                s[5],
            ) == 'n' && ascii_lower(s[6]) == 'c' && s[7] == '\\';
            rooted && (!special || shared)
        }),
{
    reveal_strlit("\\\\?\\UNC\\");
    reveal_strlit("\\\\");
    reveal_strlit("\\\\?\\");
    reveal_strlit("\\\\.\\");
    let unc = "\\\\?\\UNC\\"@;
    let two = "\\\\"@;
    let verbatim = "\\\\?\\"@;
    let device = "\\\\.\\"@;
    if s.len() >= 2 {
        let head = s.subrange(0, 2);
        assert(head[0] == s[0] && head[1] == s[1]);
        assert(two[0] == '\\' && two[1] == '\\');
    }
    if s.len() >= 4 {
        let head = s.subrange(0, 4);
        assert(head[0] == s[0] && head[1] == s[1] && head[2] == s[2] && head[3] == s[3]);
        assert(verbatim[2] == '?' && verbatim[3] == '\\' && device[2] == '.');
    }
    if s.len() >= 8 {
        let head = s.subrange(0, 8);
        assert(head[0] == s[0] && head[1] == s[1] && head[2] == s[2] && head[3] == s[3]);
        assert(head[4] == s[4] && head[5] == s[5] && head[6] == s[6] && head[7] == s[7]);
        assert(unc[4] == 'U' && unc[5] == 'N' && unc[6] == 'C' && unc[7] == '\\');
        assert(ascii_lower('U') == 'u' && ascii_lower('N') == 'n' && ascii_lower('C') == 'c');
    }
}

/// A folder's length is counted in UTF-16 units of its ordinary spelling: the prefix of a
/// verbatim one is not counted, and the verbatim spelling of a share measures as the share.
pub proof fn law_a_verbatim_prefix_is_not_measured(s: Seq<char>)
    ensures
        s.len() < 4 || s[0] != '\\' || s[1] != '\\' || s[2] != '?' || s[3] != '\\'
            ==> windows_measure(s) == utf16_len(s),
        windows_measure("\\\\?\\UNC\\"@ + s) == 2 + utf16_len(s),
        s.len() < 3 || ascii_lower(s[0]) != 'u' || ascii_lower(s[1]) != 'n' || ascii_lower(s[2])
            != 'c' ==> windows_measure("\\\\?\\"@ + s) == utf16_len(s),
{
    reveal_strlit("\\\\?\\UNC\\");
    reveal_strlit("\\\\");
    reveal_strlit("\\\\?\\");
    let unc = "\\\\?\\UNC\\"@;
    let two = "\\\\"@;
    let verbatim = "\\\\?\\"@;
    assert(unc[4] == 'U' && unc[5] == 'N' && unc[6] == 'C' && unc[7] == '\\');
    assert(ascii_lower('U') == 'u' && ascii_lower('N') == 'n' && ascii_lower('C') == 'c');
    if begins_ignoring_case(s, unc) {
        let head = s.subrange(0, 8);
        assert(head[0] == s[0] && head[1] == s[1] && head[2] == s[2] && head[3] == s[3]);
        assert(ascii_lower(head[0]) == ascii_lower(unc[0]) && ascii_lower(head[1]) == ascii_lower(
            unc[1],
        ) && ascii_lower(head[2]) == ascii_lower(unc[2]) && ascii_lower(head[3]) == ascii_lower(
            unc[3],
        ));
    }
    if begins_with(s, verbatim) {
        let head = s.take(4);
        assert(head[0] == s[0] && head[1] == s[1] && head[2] == s[2] && head[3] == s[3]);
    }
    let share = unc + s;
    assert(share.subrange(0, 8) =~= unc);
    assert(share.skip(8) =~= s);
    law_units_add_up(two, s);
    law_units_add_up(two.take(1), two.skip(1));
    law_units_add_up(two.skip(1), s);
    assert(two.take(1) + two.skip(1) =~= two);
    let long = verbatim + s;
    assert(long.take(4) =~= verbatim);
    assert(long.skip(4) =~= s);
    if begins_ignoring_case(long, unc) {
        let head = long.subrange(0, 8);
        assert(head[4] == s[0] && head[5] == s[1] && head[6] == s[2]);
        assert(ascii_lower(head[4]) == ascii_lower(unc[4]));
        assert(ascii_lower(head[5]) == ascii_lower(unc[5]));
        assert(ascii_lower(head[6]) == ascii_lower(unc[6]));
    }
}

/// A folder holds whatever lies in it, at any depth, and nothing that parts from it at some
/// component.
pub proof fn law_a_folder_holds_what_lies_in_it(
    outer: CanonicalPath,
    inner: CanonicalPath,
    below: Seq<Seq<char>>,
    i: int,
)
    ensures
        crate::text::views(inner.components@) == crate::text::views(outer.components@) + below
            ==> outer.holds(&inner),
        0 <= i < outer.components@.len() && i < inner.components@.len()
            && outer.components@[i]@ != inner.components@[i]@ ==> !outer.holds(&inner),
        outer.components@.len() > inner.components@.len() ==> !outer.holds(&inner),
{
    let a = crate::text::views(outer.components@);
    let b = crate::text::views(inner.components@);
    if b == a + below {
        assert(b.len() == a.len() + below.len());
        assert forall|k: int| 0 <= k < outer.components@.len() implies (
        #[trigger] outer.components@[k])@ == inner.components@[k]@ by {
            assert(b[k] == a[k]);
        }
    }
}

} // verus!
