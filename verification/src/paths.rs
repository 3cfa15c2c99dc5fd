//! Paths as text, where the two platforms spell them differently.
use vstd::prelude::*;
use crate::text::{chars_of, slice_of};
use crate::wire::Platform;

verus! {

/// Either platform's path separator.
pub open spec fn separator(c: char) -> bool {
    c == '/' || c == '\\'
}

/// What follows the last separator of either platform.
pub open spec fn final_component(s: Seq<char>) -> Seq<char>
    decreases s.len(),
{
    if s.len() == 0 || separator(s.last()) {
        Seq::empty()
    } else {
        final_component(s.drop_last()).push(s.last())
    }
}

/// The final component of a program name, cut at both platforms' separators.
pub fn program_name(program: &str) -> (out: String)
    ensures
        out@ == final_component(program@),
{
    let cs = chars_of(program);
    let n: usize = cs.len();
    let mut from: usize = n;
    while from > 0 && cs[from - 1] != '/' && cs[from - 1] != '\\'
        invariant
            from <= n == cs.len(),
            cs@ == program@,
            forall|k: int| from <= k < n ==> !separator(#[trigger] program@[k]),
        decreases from,
    {
        from = from - 1;
    }
    proof {
        lemma_final_component(program@, from as int);
        assert(program@.skip(from as int) =~= cs@.subrange(from as int, n as int));
    }
    slice_of(&cs, from, n)
}

proof fn lemma_final_component(s: Seq<char>, from: int)
    requires
        0 <= from <= s.len(),
        forall|k: int| from <= k < s.len() ==> !separator(#[trigger] s[k]),
        from > 0 ==> separator(s[from - 1]),
    ensures
        final_component(s) == s.skip(from),
    decreases s.len(),
{
    if from < s.len() {
        assert(!separator(s[s.len() - 1]));
        lemma_final_component(s.drop_last(), from);
        assert(s.drop_last().skip(from).push(s.last()) =~= s.skip(from));
    } else {
        assert(s.skip(from) =~= Seq::empty());
    }
}

/// A final component is the end of the name it was cut from, and holds no separator.
pub proof fn law_final_component_holds_no_separator(s: Seq<char>)
    ensures
        forall|k: int|
            0 <= k < final_component(s).len() ==> !separator(#[trigger] final_component(s)[k]),
        final_component(s).len() <= s.len(),
        final_component(s) == s.skip(s.len() - final_component(s).len()),
    decreases s.len(),
{
    if s.len() > 0 && !separator(s.last()) {
        law_final_component_holds_no_separator(s.drop_last());
        let inner = final_component(s.drop_last());
        assert(final_component(s) =~= s.skip(s.len() - final_component(s).len()));
    } else {
        assert(final_component(s) =~= s.skip(s.len() as int));
    }
}

/// Whether a Windows path is a verbatim one, which begins with `\\?\` and in which `/` is a
/// character like any other.
pub open spec fn is_verbatim(path: Seq<char>) -> bool {
    path.len() >= 4 && path[0] == '\\' && path[1] == '\\' && path[2] == '?' && path[3] == '\\'
}

/// Whether a Windows path is a bare drive such as `C:`: a letter and a colon.
pub open spec fn is_drive(path: Seq<char>) -> bool {
    path.len() == 2 && path[1] == ':' && ('a' as u32 <= path[0] as u32 <= 'z' as u32 || 'A' as u32
        <= path[0] as u32 <= 'Z' as u32)
}

/// Whether a path needs a separator before a component is appended to it: not when it is empty
/// or ends in one, nor, on Windows, when it is a bare drive.
pub open spec fn needs_separator(platform: Platform, dir: Seq<char>) -> bool {
    match platform {
        Platform::Unix => dir.len() > 0 && dir.last() != '/',
        Platform::Windows => dir.len() > 0 && dir.last() != '\\' && (dir.last() != '/'
            || is_verbatim(dir)) && !is_drive(dir),
    }
}

/// `name` inside `dir`, in the platform's own spelling. `name` is a relative path.
pub open spec fn inside(platform: Platform, dir: Seq<char>, name: Seq<char>) -> Seq<char> {
    if needs_separator(platform, dir) {
        dir + (if platform == Platform::Windows {
            "\\"@
        } else {
            "/"@
        }) + name
    } else {
        dir + name
    }
}

/// `name` inside `dir`, in the platform's own spelling. `name` is a relative path.
pub fn join_path(platform: Platform, dir: &str, name: &str) -> (out: String)
    ensures
        out@ == inside(platform, dir@, name@),
{
    let cs = chars_of(dir);
    let n: usize = cs.len();
    let needed = match platform {
        Platform::Unix => n > 0 && cs[n - 1] != '/',
        Platform::Windows => {
            let verbatim = n >= 4 && cs[0] == '\\' && cs[1] == '\\' && cs[2] == '?' && cs[3]
                == '\\';
            let drive = n == 2 && cs[1] == ':' && ((cs[0] as u32 >= 'a' as u32 && cs[0] as u32
                <= 'z' as u32) || (cs[0] as u32 >= 'A' as u32 && cs[0] as u32 <= 'Z' as u32));
            n > 0 && cs[n - 1] != '\\' && (cs[n - 1] != '/' || verbatim) && !drive
        },
    };
    if needed {
        let sep = if platform == Platform::Windows {
            "\\"
        } else {
            "/"
        };
        dir.to_owned().concat(sep).concat(name)
    } else {
        dir.to_owned().concat(name)
    }
}

/// What follows the last separator, where nothing after it is one, is the final component.
pub proof fn law_final_component_follows_the_last_separator(
    dir: Seq<char>,
    sep: char,
    name: Seq<char>,
)
    requires
        sep == '/' || sep == '\\',
        forall|k: int| 0 <= k < name.len() ==> #[trigger] name[k] != '/' && name[k] != '\\',
    ensures
        final_component(dir.push(sep) + name) == name,
    decreases name.len(),
{
    let s = dir.push(sep) + name;
    if name.len() == 0 {
        assert(s =~= dir.push(sep));
        assert(final_component(s) =~= name);
    } else {
        assert(s.drop_last() =~= dir.push(sep) + name.drop_last());
        law_final_component_follows_the_last_separator(dir, sep, name.drop_last());
        assert(s.last() == name.last());
        assert(name.drop_last().push(name.last()) =~= name);
    }
}

/// A name with no separator is its own final component.
pub proof fn law_a_bare_name_is_its_final_component(name: Seq<char>)
    requires
        forall|k: int| 0 <= k < name.len() ==> #[trigger] name[k] != '/' && name[k] != '\\',
    ensures
        final_component(name) == name,
    decreases name.len(),
{
    if name.len() > 0 {
        law_a_bare_name_is_its_final_component(name.drop_last());
        assert(name.drop_last().push(name.last()) =~= name);
        assert(name[name.len() - 1] == name.last());
    } else {
        assert(final_component(name) =~= name);
    }
}

/// A path inside a directory begins with the directory and ends with the name, with at most one
/// character between them, which is the platform's separator.
pub proof fn law_a_joined_path_is_the_directory_and_the_name(
    platform: Platform,
    dir: Seq<char>,
    name: Seq<char>,
)
    ensures
        ({
            let path = inside(platform, dir, name);
            let sep = if platform == Platform::Windows {
                '\\'
            } else {
                '/'
            };
            &&& path.take(dir.len() as int) == dir
            &&& path == dir + name || path == dir.push(sep) + name
            &&& path == dir.push(sep) + name || dir.len() == 0 || dir.last() == '/' || (platform
                == Platform::Windows && (dir.last() == '\\' || dir.last() == ':'))
            &&& dir.len() > 0 && dir.last() != '/' && dir.last() != '\\' && dir.last() != ':'
                ==> path == dir.push(sep) + name
            &&& platform == Platform::Unix && dir.len() > 0 && dir.last() != '/' ==> path
                == dir.push(sep) + name
            &&& dir.len() == 0 || dir.last() == sep ==> path == dir + name
            &&& platform == Platform::Windows && dir.len() > 2 && dir.last() == ':' ==> path
                == dir.push(sep) + name
        }),
{
    reveal_strlit("\\");
    reveal_strlit("/");
    let path = inside(platform, dir, name);
    let sep = if platform == Platform::Windows {
        '\\'
    } else {
        '/'
    };
    if needs_separator(platform, dir) {
        assert(path =~= dir.push(sep) + name);
    }
    assert(path.take(dir.len() as int) =~= dir);
}

/// What stands before the final component, if anything does, is a separator.
pub proof fn law_a_separator_comes_before_the_final_component(s: Seq<char>)
    ensures
        final_component(s).len() < s.len() ==> s[s.len() - final_component(s).len() - 1] == '/'
            || s[s.len() - final_component(s).len() - 1] == '\\',
    decreases s.len(),
{
    if s.len() > 0 && !separator(s.last()) {
        law_a_separator_comes_before_the_final_component(s.drop_last());
    }
}

/// When a name is put straight behind a directory, and when a separator goes between them.
pub proof fn law_where_a_separator_goes(dir: Seq<char>, name: Seq<char>)
    ensures
        inside(Platform::Unix, dir, name) == dir + name <==> dir.len() == 0 || dir.last() == '/',
        inside(Platform::Windows, dir, name) == dir + name <==> {
            ||| dir.len() == 0
            ||| dir.last() == '\\'
            ||| dir.last() == '/' && !(dir.len() >= 4 && dir[0] == '\\' && dir[1] == '\\' && dir[2]
                == '?' && dir[3] == '\\')
            ||| dir.len() == 2 && dir[1] == ':' && ('a' as u32 <= dir[0] as u32 <= 'z' as u32
                || 'A' as u32 <= dir[0] as u32 <= 'Z' as u32)
        },
{
    reveal_strlit("\\");
    reveal_strlit("/");
    assert((dir + name).len() == dir.len() + name.len());
    assert((dir + "/"@ + name).len() == dir.len() + 1 + name.len());
    assert((dir + "\\"@ + name).len() == dir.len() + 1 + name.len());
}

} // verus!
