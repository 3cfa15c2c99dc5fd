//! The disk spool: a status that could not be handed over, kept until a daemon can take it.
//!
//! One row per line, in a file for each pane. A drain claims every file by renaming it, reads
//! it, and unlinks it before its rows are handed on: a row that is lost was never seen by
//! anybody, and one that is replayed would overwrite what came after it.
use vstd::prelude::*;
use crate::digest::{digest, lemma_hex_word, short_digest};
use crate::paths::{inside, join_path, separator};
use crate::text::{
    blank, chars_of, decimal, decimal_of, hex, hex_of, is_blank, lemma_first_index_is, lemma_hex,
    lemma_hex_is_injective, slice_of, split, split_on, str_views, views, wide_decimal_of,
};
use crate::wire::Platform;

pub mod round_trip;

verus! {

/// The directory the per-pane files live in, under the runtime directory.
pub const SPOOL_DIR: &'static str = "agent-status";

/// The extension a file waiting to be drained carries.
pub const SPOOLED: &'static str = "jsonl";

/// The extension a file carries once a drain has claimed it.
pub const DRAINING: &'static str = "draining";

/// How large one pane's spool may grow before further rows are dropped, in bytes.
pub const FILE_CAP_BYTES: u64 = 1_048_576;

/// The longest hex stem a file is given before its name is a digest.
pub const MAX_HEX_STEM: usize = 200;

/// What a digested stem begins with. No hex stem holds a `-`, so the two forms share no names.
pub const DIGEST_PREFIX: &'static str = "h-";

/// Why a status could not be spooled or drained.
#[derive(Debug)]
pub enum SpoolError {
    /// The spool directory or one of its files could not be worked with.
    Io {
        /// What was being attempted.
        action: &'static str,
        /// Which path it was attempted on.
        path: String,
        /// What the operating system said.
        source: String,
    },
    /// A row could not be rendered; the text is the renderer's.
    Encode(String),
    /// The spool file is already at [`FILE_CAP_BYTES`].
    Full {
        /// How large the file already was.
        size: u64,
    },
}

/// What a failed spool says.
pub open spec fn spool_said(err: SpoolError) -> Seq<char> {
    match err {
        SpoolError::Io { action, path, source } => "could not "@ + action@
            + " the agent-status spool at "@ + path@ + ": "@ + source@,
        SpoolError::Encode(said) => "could not render an agent-status row as JSON: "@ + said@,
        SpoolError::Full { size } => "the agent-status spool for this pane is full at "@ + decimal(
            size as nat,
        ) + " bytes"@,
    }
}

impl SpoolError {
    /// What happened.
    pub fn message(&self) -> (out: String)
        ensures
            out@ == spool_said(*self),
    {
        match self {
            SpoolError::Io { action, path, source } => {
                "could not ".to_owned().concat(action).concat(" the agent-status spool at ").concat(
                    path.as_str(),
                ).concat(": ").concat(source.as_str())
            },
            SpoolError::Encode(said) => {
                "could not render an agent-status row as JSON: ".to_owned().concat(said.as_str())
            },
            SpoolError::Full { size } => {
                "the agent-status spool for this pane is full at ".to_owned().concat(
                    decimal_of(*size).as_str(),
                ).concat(" bytes")
            },
        }
    }
}

/// Where the spool lives for a runtime directory.
pub fn spool_dir(platform: Platform, runtime_dir: &str) -> (out: String)
    ensures
        out@ == inside(platform, runtime_dir@, "agent-status"@),
{
    join_path(platform, runtime_dir, SPOOL_DIR)
}

/// A pane key as a file name: its bytes in hex, or a digest of them where that is too long.
pub open spec fn stem(pane: Seq<char>) -> Seq<char> {
    let bytes = vstd::utf8::encode_utf8(pane);
    if 2 * bytes.len() <= MAX_HEX_STEM {
        hex(bytes)
    } else {
        "h-"@ + digest(bytes)
    }
}

/// A pane key as a file name: its bytes in hex, or a digest of them where that is too long.
///
/// Not the key itself: a key may hold `/`, `\` and `..`, and a file named after one could leave
/// the spool directory. A collision of digests costs nothing, because the drain reads each
/// row's pane out of the row.
pub fn file_stem(pane: &str) -> (out: String)
    ensures
        out@ == stem(pane@),
{
    let bytes = pane.as_bytes();
    if bytes.len() <= MAX_HEX_STEM / 2 {
        hex_of(bytes)
    } else {
        DIGEST_PREFIX.to_owned().concat(short_digest(bytes).as_str())
    }
}

/// The file a pane's rows wait in.
pub open spec fn spool_name(pane: Seq<char>) -> Seq<char> {
    stem(pane) + ".jsonl"@
}

/// What is to be appended, and to which file.
#[derive(Debug)]
pub struct Append {
    /// The file, created readable by its owner alone where it is new.
    pub path: String,
    /// The line, its newline included, to be written in one piece.
    pub line: String,
}

/// A row as a line of the file.
pub open spec fn row_line(row: Seq<char>) -> Seq<char> {
    row.push('\n')
}

/// Decide what appending a row to its pane's spool comes to: `created` says whether the spool
/// directory is there, `row` is the rendered row, and `size` is how large the pane's file
/// already is, where it is there.
pub fn append(
    platform: Platform,
    runtime_dir: &str,
    pane: &str,
    created: Result<(), String>,
    row: Result<String, String>,
    size: Option<u64>,
) -> (out: Result<Append, SpoolError>)
    ensures
        ({
            let dir = inside(platform, runtime_dir@, "agent-status"@);
            match out {
                Ok(append) => {
                    &&& created is Ok
                    &&& row is Ok
                    &&& size matches Some(held) ==> held < FILE_CAP_BYTES
                    &&& append.path@ == inside(platform, dir, spool_name(pane@))
                    &&& append.line@ == row_line(row->Ok_0@)
                },
                Err(SpoolError::Io { action, path, source }) => {
                    &&& created == Err::<(), String>(source)
                    &&& action@ == "create"@
                    &&& path@ == dir
                },
                Err(SpoolError::Encode(said)) => created is Ok && row == Err::<String, String>(
                    said,
                ),
                Err(SpoolError::Full { size: held }) => {
                    &&& created is Ok
                    &&& row is Ok
                    &&& size == Some(held)
                    &&& held >= FILE_CAP_BYTES
                },
            }
        }),
{
    let dir = spool_dir(platform, runtime_dir);
    if let Err(source) = created {
        return Err(SpoolError::Io { action: "create", path: dir, source });
    }
    let mut line = match row {
        Ok(row) => row,
        Err(said) => {
            return Err(SpoolError::Encode(said));
        },
    };
    line.push('\n');
    if let Some(held) = size {
        if held >= FILE_CAP_BYTES {
            return Err(SpoolError::Full { size: held });
        }
    }
    let name = file_stem(pane).concat(".jsonl");
    Ok(Append { path: join_path(platform, dir.as_str(), name.as_str()), line })
}

/// Whether a file name carries that extension, with something before it.
pub open spec fn carries(name: Seq<char>, extension: Seq<char>) -> bool {
    let at = name.len() - extension.len() - 1;
    at > 0 && name[at] == '.' && name.skip(at + 1) == extension
}

/// Whether a file name carries that extension, with something before it.
pub fn has_extension(name: &str, extension: &str) -> (out: bool)
    ensures
        out == carries(name@, extension@),
{
    let whole = chars_of(name);
    let wanted = chars_of(extension);
    if whole.len() <= wanted.len() || whole.len() - wanted.len() <= 1 {
        return false;
    }
    let at: usize = whole.len() - wanted.len() - 1;
    if whole[at] != '.' {
        return false;
    }
    let mut i: usize = 0;
    while i < wanted.len()
        invariant
            i <= wanted.len(),
            whole@ == name@,
            wanted@ == extension@,
            whole.len() == at + 1 + wanted.len(),
            forall|j: int| 0 <= j < i ==> whole@[at + 1 + j] == #[trigger] wanted@[j],
        decreases wanted.len() - i,
    {
        if whole[at + 1 + i] != wanted[i] {
            assert(name@.skip(at + 1)[i as int] != extension@[i as int]);
            return false;
        }
        i = i + 1;
    }
    assert(name@.skip(at + 1) =~= extension@);
    true
}

/// What listing the spool directory answered.
#[derive(Debug)]
pub enum Listing {
    /// There is no such directory, which is what every first start looks like.
    Missing,
    /// It is there and could not be listed; the text is the operating system's.
    Failed(String),
    /// The names of what is in it.
    Names(Vec<String>),
}

/// What a drain is to do with the files it found.
#[derive(Debug)]
pub struct DrainPlan {
    /// Claimed by a drain that died before it handed its rows on: picking one up is a first
    /// delivery.
    pub leftovers: Vec<String>,
    /// Waiting to be claimed, all of them before any is read.
    pub spooled: Vec<String>,
}

/// The names that carry that extension, in order.
pub open spec fn carrying(names: Seq<Seq<char>>, extension: Seq<char>) -> Seq<Seq<char>> {
    names.filter(|name: Seq<char>| carries(name, extension))
}

fn with_extension(names: &Vec<String>, extension: &str) -> (out: Vec<String>)
    ensures
        views(out@) == carrying(views(names@), extension@),
{
    let ghost pred = |name: Seq<char>| carries(name, extension@);
    let mut out: Vec<String> = Vec::new();
    let mut i: usize = 0;
    proof {
        reveal(Seq::filter);
        assert(views(names@).take(0).filter(pred) =~= Seq::empty());
        assert(views(out@) =~= Seq::empty());
    }
    while i < names.len()
        invariant
            i <= names.len(),
            pred == (|name: Seq<char>| carries(name, extension@)),
            views(out@) == views(names@).take(i as int).filter(pred),
        decreases names.len() - i,
    {
        proof {
            reveal(Seq::filter);
            assert(views(names@).take(i + 1).drop_last() =~= views(names@).take(i as int));
            assert(views(names@).take(i + 1).last() == names@[i as int]@);
        }
        if has_extension(names[i].as_str(), extension) {
            let ghost before = views(out@);
            out.push(names[i].clone());
            assert(views(out@) =~= before.push(names@[i as int]@));
        }
        i = i + 1;
    }
    assert(views(names@).take(i as int) =~= views(names@));
    out
}

/// Sort out what a listing of the spool directory holds. A missing directory is an empty
/// drain; one that cannot be listed is an error.
pub fn drain_plan(platform: Platform, runtime_dir: &str, listing: Listing) -> (out: Result<
    DrainPlan,
    SpoolError,
>)
    ensures
        match listing {
            Listing::Missing => out matches Ok(plan) && plan.leftovers@.len() == 0
                && plan.spooled@.len() == 0,
            Listing::Failed(said) => out matches Err(SpoolError::Io { action, path, source })
                && action@ == "list"@ && path@ == inside(
                platform,
                runtime_dir@,
                "agent-status"@,
            ) && source == said,
            Listing::Names(names) => out matches Ok(plan) && views(plan.leftovers@) == carrying(
                views(names@),
                "draining"@,
            ) && views(plan.spooled@) == carrying(views(names@), "jsonl"@),
        },
{
    match listing {
        Listing::Missing => Ok(DrainPlan { leftovers: Vec::new(), spooled: Vec::new() }),
        Listing::Failed(source) => Err(
            SpoolError::Io { action: "list", path: spool_dir(platform, runtime_dir), source },
        ),
        Listing::Names(names) => Ok(
            DrainPlan {
                leftovers: with_extension(&names, DRAINING),
                spooled: with_extension(&names, SPOOLED),
            },
        ),
    }
}

/// The name a spooled file is claimed under.
pub open spec fn claimed_name(name: Seq<char>, nonce: nat) -> Seq<char> {
    name.take(name.len() - 6) + "."@ + decimal(nonce) + ".draining"@
}

/// The name a spooled file is renamed to: unique, so that a leftover of an earlier start is
/// never overwritten. `None` where the file is no spooled one.
pub fn claim(name: &str, nonce: u128) -> (out: Option<String>)
    ensures
        out is Some <==> carries(name@, "jsonl"@),
        out matches Some(claimed) ==> claimed@ == claimed_name(name@, nonce as nat),
{
    if !has_extension(name, SPOOLED) {
        return None;
    }
    proof {
        reveal_strlit("jsonl");
    }
    let cs = chars_of(name);
    let kept = slice_of(&cs, 0, cs.len() - 6);
    assert(kept@ =~= name@.take(name@.len() - 6));
    Some(kept.concat(".").concat(wide_decimal_of(nonce).as_str()).concat(".draining"))
}

/// The files to read, in order: what an earlier drain left, then what this one claimed.
pub fn drain_order(leftovers: Vec<String>, claimed: Vec<String>) -> (out: Vec<String>)
    ensures
        out@ == leftovers@ + claimed@,
{
    let mut out = leftovers;
    let mut claimed = claimed;
    out.append(&mut claimed);
    out
}

/// A line of a file: without the carriage return before its newline. What follows the last
/// newline keeps its own.
pub open spec fn line_at(parts: Seq<Seq<char>>, i: int) -> Seq<char> {
    if i < parts.len() - 1 && parts[i].len() > 0 && parts[i].last() == '\r' {
        parts[i].drop_last()
    } else {
        parts[i]
    }
}

/// The lines of a file that hold something, in order.
pub open spec fn held_lines(text: Seq<char>) -> Seq<Seq<char>> {
    let parts = split(text, '\n');
    Seq::new(parts.len(), |i: int| line_at(parts, i)).filter(|line: Seq<char>| !blank(line))
}

/// The lines a drained file hands over: none where it could not be read, and none where it
/// could not be unlinked, because a later start would hand those over again.
pub fn drained_lines(text: Option<&str>, unlinked: bool) -> (out: Vec<String>)
    ensures
        views(out@) == (match text {
            Some(text) if unlinked => held_lines(text@),
            _ => Seq::empty(),
        }),
{
    let mut out: Vec<String> = Vec::new();
    assert(views(out@) =~= Seq::empty());
    let text = match text {
        Some(text) => text,
        None => {
            return out;
        },
    };
    if !unlinked {
        return out;
    }
    let parts = split_on(text, '\n');
    let ghost pieces = str_views(parts@);
    let ghost lines = Seq::new(pieces.len(), |i: int| line_at(pieces, i));
    let ghost pred = |line: Seq<char>| !blank(line);
    let mut i: usize = 0;
    proof {
        reveal(Seq::filter);
        assert(lines.take(0).filter(pred) =~= Seq::empty());
    }
    while i < parts.len()
        invariant
            i <= parts.len(),
            pieces == str_views(parts@),
            lines == Seq::new(pieces.len(), |i: int| line_at(pieces, i)),
            pred == (|line: Seq<char>| !blank(line)),
            views(out@) == lines.take(i as int).filter(pred),
        decreases parts.len() - i,
    {
        let cs = chars_of(parts[i]);
        let n: usize = cs.len();
        let line = if i < parts.len() - 1 && n > 0 && cs[n - 1] == '\r' {
            slice_of(&cs, 0, n - 1)
        } else {
            parts[i].to_owned()
        };
        proof {
            reveal(Seq::filter);
            assert(line@ =~= lines[i as int]);
            assert(lines.take(i + 1).drop_last() =~= lines.take(i as int));
            assert(lines.take(i + 1).last() == line@);
        }
        if !is_blank(line.as_str()) {
            let ghost before = views(out@);
            let ghost kept = line@;
            out.push(line);
            assert(views(out@) =~= before.push(kept));
        }
        i = i + 1;
    }
    assert(lines.take(i as int) =~= lines);
    out
}

/// What a drain found.
#[derive(Debug)]
pub struct Drained<R> {
    /// The rows, in the order they were handed over.
    pub rows: Vec<R>,
    /// Lines that were found and could not be read as a row: counted rather than carried,
    /// because a line may hold something that belongs in no log.
    pub unreadable: usize,
}

/// The rows among lines that were read, in order.
pub open spec fn read_rows<R>(read: Seq<Option<R>>) -> Seq<R>
    decreases read.len(),
{
    if read.len() == 0 {
        Seq::empty()
    } else {
        match read.last() {
            Some(row) => read_rows(read.drop_last()).push(row),
            None => read_rows(read.drop_last()),
        }
    }
}

/// Gather what the lines of a drain were read as.
pub fn drain<R>(read: Vec<Option<R>>) -> (out: Drained<R>)
    ensures
        out.rows@ == read_rows(read@),
        out.unreadable == read@.len() - read_rows(read@).len(),
{
    let mut rows: Vec<R> = Vec::new();
    let mut unreadable: usize = 0;
    let ghost all = read@;
    assert(all.len() == read.len());
    for line in lines: read
        invariant
            lines.seq() == all,
            rows@ == read_rows(all.take(lines.index())),
            unreadable == lines.index() - rows@.len(),
            all.len() <= usize::MAX,
    {
        proof {
            let i = lines.index();
            assert(all.take(i + 1).drop_last() =~= all.take(i));
            assert(all.take(i + 1).last() == all[i]);
        }
        match line {
            Some(row) => rows.push(row),
            None => unreadable = unreadable + 1,
        }
    }
    assert(all.take(all.len() as int) =~= all);
    Drained { rows, unreadable }
}

/// A pane key never becomes a path: whatever it holds, its file's name holds no separator and
/// no dot but the extension's, and fits one path component.
pub proof fn law_a_pane_key_never_becomes_a_path(pane: Seq<char>)
    ensures
        stem(pane).len() <= MAX_HEX_STEM,
        forall|i: int|
            0 <= i < stem(pane).len() ==> !separator(#[trigger] stem(pane)[i]) && stem(pane)[i]
                != '.',
{
    let bytes = vstd::utf8::encode_utf8(pane);
    lemma_hex(bytes);
    lemma_hex_word(crate::digest::fnv(bytes) as nat, 16);
    reveal_strlit("h-");
    if 2 * bytes.len() > MAX_HEX_STEM {
        assert forall|i: int| 0 <= i < stem(pane).len() implies !separator(#[trigger] stem(pane)[i])
            && stem(pane)[i] != '.' by {
            if i >= 2 {
                assert(stem(pane)[i] == digest(bytes)[i - 2]);
            }
        }
    }
}

/// Two pane keys whose hex is short enough never share a file, and neither shares one with a
/// key that is digested.
pub proof fn law_a_short_pane_key_has_a_file_of_its_own(pane: Seq<char>, other: Seq<char>)
    requires
        2 * vstd::utf8::encode_utf8(pane).len() <= MAX_HEX_STEM,
        stem(pane) == stem(other),
    ensures
        pane == other,
{
    let bytes = vstd::utf8::encode_utf8(pane);
    let others = vstd::utf8::encode_utf8(other);
    lemma_hex(bytes);
    if 2 * others.len() <= MAX_HEX_STEM {
        lemma_hex_is_injective(bytes, others);
        vstd::utf8::encode_utf8_decode_utf8(pane);
        vstd::utf8::encode_utf8_decode_utf8(other);
    } else {
        reveal_strlit("h-");
        assert(stem(other)[0] == 'h');
        assert(stem(pane)[0] == hex(bytes)[0]);
    }
}

/// The file a pane's rows are appended to is one a drain claims, and the name it is claimed
/// under is one a later drain picks up.
pub proof fn law_a_spooled_file_is_drained(pane: Seq<char>, nonce: nat)
    requires
        pane.len() > 0,
    ensures
        carries(spool_name(pane), "jsonl"@),
        carries(claimed_name(spool_name(pane), nonce), "draining"@),
{
    let bytes = vstd::utf8::encode_utf8(pane);
    lemma_hex(bytes);
    lemma_hex_word(crate::digest::fnv(bytes) as nat, 16);
    reveal_strlit("h-");
    reveal_strlit("jsonl");
    reveal_strlit(".jsonl");
    reveal_strlit("draining");
    reveal_strlit(".draining");
    reveal_strlit(".");
    vstd::utf8::encode_utf8_first_scalar(pane);
    assert(bytes.len() > 0) by {
        vstd::utf8::encode_utf8_decode_utf8(pane);
        if bytes.len() == 0 {
            assert(vstd::utf8::decode_utf8(bytes) =~= Seq::<char>::empty());
        }
    }
    assert(stem(pane).len() > 0);
    let name = spool_name(pane);
    assert(name.skip(name.len() - 5) =~= "jsonl"@);
    let claimed = claimed_name(name, nonce);
    assert(claimed.skip(claimed.len() - 8) =~= "draining"@);
}

/// A spool file after rows have been appended to it, each as its own line.
pub open spec fn spool_file(rows: Seq<Seq<char>>) -> Seq<char>
    decreases rows.len(),
{
    if rows.len() == 0 {
        Seq::empty()
    } else {
        row_line(rows[0]) + spool_file(rows.skip(1))
    }
}

/// A row that can stand on a line of its own: it holds something, no newline, and no carriage
/// return at its end. Every rendered row is one.
pub open spec fn one_line(row: Seq<char>) -> bool {
    &&& !blank(row)
    &&& row.last() != '\r'
    &&& forall|i: int| 0 <= i < row.len() ==> #[trigger] row[i] != '\n'
}

proof fn lemma_split_spool_file(rows: Seq<Seq<char>>)
    requires
        forall|i: int| 0 <= i < rows.len() ==> one_line(#[trigger] rows[i]),
    ensures
        split(spool_file(rows), '\n') == rows.push(Seq::empty()),
    decreases rows.len(),
{
    let text = spool_file(rows);
    if rows.len() == 0 {
        assert(split(text, '\n') =~= seq![text]);
        assert(rows.push(Seq::empty()) =~= seq![text]);
    } else {
        let rest = rows.skip(1);
        let at = rows[0].len() as int;
        assert(one_line(rows[0]));
        assert forall|i: int| 0 <= i < at implies #[trigger] text[i] != '\n' by {
            assert(text[i] == rows[0][i]);
        }
        lemma_first_index_is(text, '\n', at);
        assert(text.take(at) =~= rows[0]);
        assert(text.skip(at + 1) =~= spool_file(rest));
        assert forall|i: int| 0 <= i < rest.len() implies one_line(#[trigger] rest[i]) by {
            assert(rest[i] == rows[i + 1]);
        }
        lemma_split_spool_file(rest);
        assert(seq![rows[0]] + rest.push(Seq::empty()) =~= rows.push(Seq::empty()));
    }
}

/// Every row that was spooled is handed over by the drain, once and in order.
pub proof fn law_a_row_spooled_is_a_row_drained(rows: Seq<Seq<char>>)
    requires
        forall|i: int| 0 <= i < rows.len() ==> one_line(#[trigger] rows[i]),
    ensures
        held_lines(spool_file(rows)) == rows,
{
    lemma_split_spool_file(rows);
    let parts = rows.push(Seq::empty());
    let pred = |line: Seq<char>| !blank(line);
    let lines = Seq::new(parts.len(), |i: int| line_at(parts, i));
    assert(lines =~= rows.push(Seq::empty())) by {
        assert forall|i: int| 0 <= i < parts.len() implies lines[i] == parts[i] by {
            if i < rows.len() {
                assert(one_line(rows[i]));
            }
        }
    }
    assert(lines.drop_last() =~= rows);
    reveal(Seq::filter);
    lemma_all_kept(rows);
}

proof fn lemma_all_kept(rows: Seq<Seq<char>>)
    requires
        forall|i: int| 0 <= i < rows.len() ==> one_line(#[trigger] rows[i]),
    ensures
        rows.filter(|line: Seq<char>| !blank(line)) == rows,
    decreases rows.len(),
{
    reveal(Seq::filter);
    if rows.len() > 0 {
        assert(one_line(rows[rows.len() - 1]));
        assert forall|i: int| 0 <= i < rows.drop_last().len() implies one_line(
            #[trigger] rows.drop_last()[i],
        ) by {
            assert(rows.drop_last()[i] == rows[i]);
        }
        lemma_all_kept(rows.drop_last());
        assert(rows.drop_last().push(rows.last()) =~= rows);
    }
}

/// A pane key of up to a hundred bytes is spelled out byte for byte in its file's name; a longer
/// one is named by its digest, behind a mark that no spelled-out name begins with.
pub proof fn law_a_long_pane_key_is_named_by_its_digest(pane: Seq<char>)
    ensures
        vstd::utf8::encode_utf8(pane).len() <= 100 ==> stem(pane) == hex(
            vstd::utf8::encode_utf8(pane),
        ) && stem(pane).len() == 2 * vstd::utf8::encode_utf8(pane).len(),
        vstd::utf8::encode_utf8(pane).len() > 100 ==> stem(pane).len() == 18 && stem(pane)[0]
            == 'h' && stem(pane)[1] == '-' && stem(pane).skip(2) == digest(
            vstd::utf8::encode_utf8(pane),
        ),
        spool_name(pane).take(stem(pane).len() as int) == stem(pane),
{
    reveal_strlit("h-");
    let bytes = vstd::utf8::encode_utf8(pane);
    lemma_hex(bytes);
    lemma_hex_word(crate::digest::fnv(bytes) as nat, 16);
    if bytes.len() > 100 {
        assert(stem(pane).skip(2) =~= digest(bytes));
    }
    assert(spool_name(pane).take(stem(pane).len() as int) =~= stem(pane));
}

/// A file carries an extension if its name ends with a full stop and the extension and has
/// something before them.
pub proof fn law_what_carries_an_extension(name: Seq<char>, extension: Seq<char>)
    ensures
        name.len() > 0 ==> carries(name.push('.') + extension, extension),
        !carries(seq!['.'] + extension, extension),
        !carries(extension, extension),
        carries(name, extension) ==> name.len() > extension.len() + 1 && name.skip(
            name.len() - extension.len() - 1,
        ) == seq!['.'] + extension,
{
    let whole = name.push('.') + extension;
    assert(whole.skip(name.len() as int + 1) =~= extension);
    if carries(name, extension) {
        let at = name.len() - extension.len() - 1;
        assert(name.skip(at) =~= seq!['.'] + name.skip(at + 1));
    }
}

/// A claimed file keeps the name it was spooled under, and two claims of it differ.
pub proof fn law_a_claim_keeps_the_name(pane: Seq<char>, one: nat, two: nat)
    ensures
        claimed_name(spool_name(pane), one).take(stem(pane).len() as int) == stem(pane),
        claimed_name(spool_name(pane), one) == claimed_name(spool_name(pane), two) ==> one == two,
        claimed_name(spool_name(pane), one) != spool_name(pane),
{
    reveal_strlit(".jsonl");
    reveal_strlit(".");
    reveal_strlit(".draining");
    crate::text::law_a_number_reads_back(one);
    crate::text::law_a_number_reads_back(two);
    let name = spool_name(pane);
    let base = stem(pane);
    assert(name.take(name.len() - 6) =~= base);
    let a = claimed_name(name, one);
    let b = claimed_name(name, two);
    assert(a.take(base.len() as int) =~= base);
    let from = base.len() as int + 1;
    if a == b {
        assert(a.len() == base.len() + 1 + decimal(one).len() + 9);
        assert(b.len() == base.len() + 1 + decimal(two).len() + 9);
        assert(a.subrange(from, from + decimal(one).len() as int) =~= decimal(one));
        assert(b.subrange(from, from + decimal(one).len() as int) =~= decimal(two));
    }
    assert(name.last() == 'l');
    assert(a.last() == 'g');
}

/// Every line that reads as a row is handed on, in its order, and no other.
pub proof fn law_every_readable_row_is_handed_on<R>(read: Seq<Option<R>>, row: R)
    ensures
        read_rows(read.push(Some(row))) == read_rows(read).push(row),
        read_rows(read.push(None)) == read_rows(read),
        read_rows(Seq::<Option<R>>::empty()).len() == 0,
{
    assert(read.push(Some(row)).drop_last() =~= read);
    assert(read.push(None).drop_last() =~= read);
}

/// A row that ends in a carriage return and a newline is the row that ends in the newline.
pub proof fn law_a_carriage_return_is_no_part_of_a_row(row: Seq<char>)
    requires
        one_line(row),
    ensures
        held_lines(row.push('\r').push('\n')) == seq![row],
        held_lines(row.push('\n')) == seq![row],
        held_lines(row) == seq![row],
        held_lines(Seq::empty()).len() == 0,
{
    lemma_one_row(row, row.push('\r'));
    lemma_one_row(row, row);
    assert forall|i: int| 0 <= i < row.len() implies #[trigger] row[i] != '\n' by {}
    lemma_first_index_is(row, '\n', row.len() as int);
    let says = |line: Seq<char>| !blank(line);
    let parts = split(row, '\n');
    assert(parts =~= seq![row]);
    let lines = Seq::new(parts.len(), |i: int| line_at(parts, i));
    assert(lines =~= seq![row]);
    lemma_one_kept(row, says);
    let none = Seq::<char>::empty();
    lemma_first_index_is(none, '\n', 0);
    let empty = split(none, '\n');
    assert(empty =~= seq![none]);
    let nothing = Seq::new(empty.len(), |i: int| line_at(empty, i));
    assert(nothing =~= seq![none]);
    assert(blank(none));
    assert(nothing.filter(says).len() == 0) by {
        reveal(Seq::filter);
        assert(nothing.drop_last() =~= Seq::empty());
        assert(nothing.last() == none);
        assert(Seq::<Seq<char>>::empty().filter(says) =~= Seq::empty());
    }
}

proof fn lemma_one_kept(row: Seq<char>, p: spec_fn(Seq<char>) -> bool)
    requires
        p(row),
    ensures
        seq![row].filter(p) == seq![row],
{
    reveal(Seq::filter);
    let one = seq![row];
    assert(one.drop_last() =~= Seq::empty());
    assert(Seq::<Seq<char>>::empty().filter(p) =~= Seq::empty());
    assert(one.filter(p) =~= one);
}

proof fn lemma_one_row(row: Seq<char>, line: Seq<char>)
    requires
        one_line(row),
        line == row || line == row.push('\r'),
    ensures
        held_lines(line.push('\n')) == seq![row],
{
    let s = line.push('\n');
    assert forall|i: int| 0 <= i < line.len() implies #[trigger] s[i] != '\n' by {
        if i < row.len() {
            assert(s[i] == row[i]);
        }
    }
    lemma_first_index_is(s, '\n', line.len() as int);
    let none = Seq::<char>::empty();
    assert(s.skip(line.len() as int + 1) =~= none);
    lemma_first_index_is(none, '\n', 0);
    assert(split(none, '\n') =~= seq![none]);
    let parts = split(s, '\n');
    assert(s.take(line.len() as int) =~= line);
    assert(parts =~= seq![line, none]);
    let says = |l: Seq<char>| !blank(l);
    let lines = Seq::new(parts.len(), |i: int| line_at(parts, i));
    assert(row.push('\r').drop_last() =~= row);
    assert(lines =~= seq![row, none]);
    reveal(Seq::filter);
    assert(blank(none));
    assert(lines.drop_last() =~= seq![row]);
    lemma_one_kept(row, says);
    assert(lines.last() == none);
    assert(lines.filter(says) == seq![row].filter(says));
}

/// What is said of a spool that failed ends with the cause, or says how full it is.
pub proof fn law_a_spool_failure_says_why(err: SpoolError)
    ensures
        err matches SpoolError::Io { action, path, source } ==> spool_said(err).skip(
            spool_said(err).len() - source@.len(),
        ) == source@,
        err matches SpoolError::Encode(said) ==> spool_said(err).skip(
            spool_said(err).len() - said@.len(),
        ) == said@,
        err matches SpoolError::Full { size } ==> spool_said(err).skip(
            spool_said(err).len() - decimal(size as nat).len() - " bytes"@.len(),
        ) == decimal(size as nat) + " bytes"@,
{
    let said = spool_said(err);
    match err {
        SpoolError::Io { action, path, source } => {
            assert(said.skip(said.len() - source@.len()) =~= source@);
        },
        SpoolError::Encode(why) => {
            assert(said.skip(said.len() - why@.len()) =~= why@);
        },
        SpoolError::Full { size } => {
            let n = decimal(size as nat);
            assert(said.skip(said.len() - n.len() - " bytes"@.len()) =~= n + " bytes"@);
        },
    }
}

/// A last line that was not finished is a row as it stands: nothing is cut off it.
pub proof fn law_an_unfinished_line_is_kept_as_it_is(line: Seq<char>)
    requires
        !blank(line),
        forall|i: int| 0 <= i < line.len() ==> #[trigger] line[i] != '\n',
    ensures
        held_lines(line) == seq![line],
{
    lemma_first_index_is(line, '\n', line.len() as int);
    let says = |l: Seq<char>| !blank(l);
    let parts = split(line, '\n');
    assert(parts =~= seq![line]);
    let lines = Seq::new(parts.len(), |i: int| line_at(parts, i));
    assert(lines =~= seq![line]);
    lemma_one_kept(line, says);
}

} // verus!
