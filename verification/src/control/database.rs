//! Which database is used, and what is kept in it.
use crate::text::{
    append, chars_of, copy, decimal, find_char, find_last_char, last_char, next_char, push_decimal,
    text_of, text_stands_at, stands_at,
};
use vstd::prelude::*;

verus! {

/// The version of the database schema.
pub const SCHEMA_VERSION: i64 = 4;

/// The configured database can be used: it has the current schema, or nothing is in it.
pub open spec fn is_usable(version: Option<i64>, has_schema: bool, has_tables: bool) -> bool {
    version == Some(SCHEMA_VERSION) || (!has_schema && !has_tables)
}

/// Whether the configured database can be used. Another one is left as it is.
pub fn use_configured(version: Option<i64>, has_schema: bool, has_tables: bool) -> (r: bool)
    ensures
        r == is_usable(version, has_schema, has_tables),
{
    let current: bool = match version {
        Some(n) => n == SCHEMA_VERSION,
        None => false,
    };
    current || (!has_schema && !has_tables)
}

/// A whole number in decimal notation.
pub open spec fn signed_text(n: i64) -> Seq<char> {
    if n < 0 {
        "-"@ + decimal(-n)
    } else {
        decimal(n as int)
    }
}

/// What is said of a database with another schema.
pub open spec fn version_complaint(version: i64) -> Seq<char> {
    "unsupported database schema version Some("@ + signed_text(version) + ")"@
}

/// Whether a database can be brought to the current schema: it has none yet, or has it already.
pub fn check_version(version: Option<i64>) -> (r: Result<(), String>)
    ensures
        match r {
            Ok(_) => version is None || version == Some(SCHEMA_VERSION),
            Err(message) => version is Some && version->0 != SCHEMA_VERSION && message@
                == version_complaint(version->0),
        },
{
    match version {
        None => Ok(()),
        Some(n) => {
            if n == SCHEMA_VERSION {
                return Ok(());
            }
            let mut message = copy("unsupported database schema version Some(");
            if n < 0 {
                append(&mut message, "-");
                let magnitude: u64 = (-(n as i128)) as u64;
                push_decimal(&mut message, magnitude);
            } else {
                push_decimal(&mut message, n as u64);
            }
            append(&mut message, ")");
            assert(message@ =~= version_complaint(n));
            Err(message)
        },
    }
}

/// A path without slashes at its end, nor parts that stand for the same directory.
pub open spec fn path_body(path: Seq<char>) -> Seq<char>
    decreases path.len(),
{
    let n = path.len();
    if n > 0 && (path[n - 1] == '/' || (n > 1 && path[n - 1] == '.' && path[n - 2] == '/')) {
        path_body(path.drop_last())
    } else {
        path
    }
}

/// The part of a path behind its last slash.
pub open spec fn file_name(path: Seq<char>) -> Seq<char> {
    match last_char(path, '/', path.len() as int) {
        Some(i) => path.subrange(i + 1, path.len() as int),
        None => path,
    }
}

/// The part of a path up to the name of its file, with a slash at its end.
pub open spec fn directory(path: Seq<char>) -> Seq<char> {
    match last_char(path, '/', path.len() as int) {
        Some(i) => path_body(path.subrange(0, i)) + seq!['/'],
        None => Seq::empty(),
    }
}

/// The name of a file before its last dot. A dot at the start does not count.
pub open spec fn stem(name: Seq<char>) -> Seq<char> {
    match last_char(name, '.', name.len() as int) {
        Some(i) if i > 0 => name.subrange(0, i),
        _ => name,
    }
}

/// The name of a file behind its last dot, or `db` if there is none.
pub open spec fn extension(name: Seq<char>) -> Seq<char> {
    match last_char(name, '.', name.len() as int) {
        Some(i) if i > 0 => name.subrange(i + 1, name.len() as int),
        _ => "db"@,
    }
}

/// The name of the file for the current schema.
pub open spec fn schema_name(name: Seq<char>) -> Seq<char> {
    stem(name) + ".schema-4."@ + extension(name)
}

/// A text with slashes in place of backslashes.
pub open spec fn with_slashes(text: Seq<char>) -> Seq<char> {
    text.map_values(
        |c: char|
            if c == '\\' {
                '/'
            } else {
                c
            },
    )
}

/// The part of an address before the question mark.
pub open spec fn before_query(url: Seq<char>) -> Seq<char> {
    url.subrange(0, next_char(url, '?', 0))
}

/// The part of an address from the question mark on, unless nothing is behind it.
pub open spec fn query(url: Seq<char>) -> Seq<char> {
    let at = next_char(url, '?', 0);
    if at + 1 < url.len() {
        url.subrange(at, url.len() as int)
    } else {
        Seq::empty()
    }
}

/// The address of the database for the current schema, beside the configured one.
pub open spec fn fallback_of(url: Seq<char>) -> Result<Seq<char>, Seq<char>> {
    let prefix = before_query(url);
    let scheme = "sqlite://"@;
    if !stands_at(prefix, scheme, 0) {
        Err("DATABASE_URL must use sqlite://"@)
    } else {
        let path = prefix.subrange(scheme.len() as int, prefix.len() as int);
        let body = path_body(path);
        let name = file_name(body);
        if path == ":memory:"@ || path.len() == 0 {
            Err("cannot create a schema-specific path for an in-memory database"@)
        } else if name.len() == 0 || name == "."@ || name == ".."@ {
            Err("invalid database filename"@)
        } else {
            Ok(scheme + with_slashes(directory(body) + schema_name(name)) + query(url))
        }
    }
}

/// A path without slashes at its end, nor parts that stand for the same directory.
fn trim_path(path: &[char]) -> (r: &[char])
    ensures
        r@ == path_body(path@),
{
    let mut end: usize = path.len();
    assert(path@.subrange(0, end as int) =~= path@);
    while end > 0 && (path[end - 1] == '/' || (end > 1 && path[end - 1] == '.' && path[end - 2]
        == '/'))
        invariant
            end <= path@.len(),
            path_body(path@) == path_body(path@.subrange(0, end as int)),
        decreases end,
    {
        assert(path@.subrange(0, end as int).drop_last() =~= path@.subrange(0, end - 1));
        end -= 1;
    }
    &path[0..end]
}

/// Adds characters to a text, with slashes in place of backslashes.
fn push_with_slashes(text: &mut String, chars: &[char])
    ensures
        final(text)@ == old(text)@ + with_slashes(chars@),
{
    let mut i: usize = 0;
    assert(old(text)@ + with_slashes(chars@).subrange(0, 0) =~= old(text)@);
    while i < chars.len()
        invariant
            i <= chars@.len(),
            text@ == old(text)@ + with_slashes(chars@).subrange(0, i as int),
        decreases chars@.len() - i,
    {
        let c: char = if chars[i] == '\\' {
            '/'
        } else {
            chars[i]
        };
        text.push(c);
        assert(with_slashes(chars@).subrange(0, i + 1) =~= with_slashes(chars@).subrange(
            0,
            i as int,
        ).push(c));
        assert(text@ =~= old(text)@ + with_slashes(chars@).subrange(0, i + 1));
        i += 1;
    }
    assert(with_slashes(chars@).subrange(0, i as int) =~= with_slashes(chars@));
}

/// The name of the file for the current schema.
fn name_schema_file(name: &[char]) -> (r: Vec<char>)
    ensures
        r@ == schema_name(name@),
{
    let size: usize = name.len();
    let dot: Option<usize> = match find_last_char(name, '.') {
        Some(i) => if i > 0 {
            Some(i)
        } else {
            None
        },
        None => None,
    };
    let mut text = match dot {
        Some(i) => text_of(&name[0..i]),
        None => text_of(name),
    };
    append(&mut text, ".schema-4.");
    match dot {
        Some(i) => {
            let rest = text_of(&name[i + 1..size]);
            append(&mut text, rest.as_str());
        },
        None => {
            append(&mut text, "db");
        },
    }
    chars_of(text.as_str())
}

/// Whether characters are a text.
fn is_text(chars: &[char], text: &str) -> (r: bool)
    ensures
        r == (chars@ == text@),
{
    let other = chars_of(text);
    if chars.len() != other.len() {
        return false;
    }
    let r = text_stands_at(chars, other.as_slice(), 0);
    assert(chars@.subrange(0, chars@.len() as int) =~= chars@);
    r
}

/// The address of the database for the current schema, beside the configured one.
pub fn schema_fallback_url(url: &str) -> (r: Result<String, String>)
    ensures
        match r {
            Ok(text) => fallback_of(url@) == Ok::<Seq<char>, Seq<char>>(text@),
            Err(message) => fallback_of(url@) == Err::<Seq<char>, Seq<char>>(message@),
        },
{
    let chars = chars_of(url);
    let mark: usize = find_char(chars.as_slice(), '?', 0);
    let prefix: &[char] = &chars.as_slice()[0..mark];
    let scheme = chars_of("sqlite://");
    if prefix.len() < scheme.len() || !text_stands_at(prefix, scheme.as_slice(), 0) {
        return Err(copy("DATABASE_URL must use sqlite://"));
    }
    let path: &[char] = &prefix[scheme.len()..prefix.len()];
    if path.len() == 0 || is_text(path, ":memory:") {
        return Err(copy("cannot create a schema-specific path for an in-memory database"));
    }
    let body: &[char] = trim_path(path);
    let size: usize = body.len();
    let slash: Option<usize> = find_last_char(body, '/');
    let name: &[char] = match slash {
        Some(i) => &body[i + 1..size],
        None => body,
    };
    if name.len() == 0 || is_text(name, ".") || is_text(name, "..") {
        return Err(copy("invalid database filename"));
    }
    let mut text = copy("sqlite://");
    let ghost start = text@;
    if let Some(i) = slash {
        let parent: &[char] = trim_path(&body[0..i]);
        push_with_slashes(&mut text, parent);
        text.push('/');
    }
    assert(text@ =~= start + with_slashes(directory(body@)));
    let file = name_schema_file(name);
    push_with_slashes(&mut text, file.as_slice());
    assert(text@ =~= start + with_slashes(directory(body@) + schema_name(name@)));
    let total: usize = chars.len();
    if mark < total && mark + 1 < total {
        let rest = text_of(&chars.as_slice()[mark..total]);
        append(&mut text, rest.as_str());
    } else {
        assert(text@ =~= text@ + query(url@));
    }
    Ok(text)
}

proof fn last_char_there(text: Seq<char>, c: char, end: int, at: int)
    requires
        0 <= at < end <= text.len(),
        text[at] == c,
        forall|i: int| at < i < end ==> text[i] != c,
    ensures
        last_char(text, c, end) == Some(at),
    decreases end - at,
{
    if end > at + 1 {
        last_char_there(text, c, end - 1, at);
    }
}

proof fn last_char_parts(text: Seq<char>, c: char, end: int)
    requires
        0 <= end <= text.len(),
    ensures
        match last_char(text, c, end) {
            Some(i) => 0 <= i < end && text[i] == c && forall|j: int|
                i < j < end ==> text[j] != c,
            None => forall|j: int| 0 <= j < end ==> text[j] != c,
        },
    decreases end,
{
    if end > 0 && text[end - 1] != c {
        last_char_parts(text, c, end - 1);
    }
}

proof fn body_is_shorter(path: Seq<char>)
    ensures
        path_body(path).len() <= path.len(),
        path_body(path) == path.subrange(0, path_body(path).len() as int),
    decreases path.len(),
{
    let n = path.len();
    if n > 0 && (path[n - 1] == '/' || (n > 1 && path[n - 1] == '.' && path[n - 2] == '/')) {
        body_is_shorter(path.drop_last());
        assert(path_body(path) =~= path.subrange(0, path_body(path).len() as int));
    } else {
        assert(path.subrange(0, n as int) =~= path);
    }
}

/// No character of a text is this one.
spec fn lacks(text: Seq<char>, c: char) -> bool {
    forall|i: int| 0 <= i < text.len() ==> text[i] != c
}

proof fn schema_name_lacks(name: Seq<char>, c: char)
    requires
        lacks(name, c),
        c == '/' || c == '\\' || c == '?',
    ensures
        lacks(schema_name(name), c),
{
    reveal_strlit(".schema-4.");
    reveal_strlit("db");
    last_char_parts(name, '.', name.len() as int);
    let full = schema_name(name);
    let head = stem(name);
    let middle = ".schema-4."@;
    let tail = extension(name);
    assert(lacks(head, c));
    assert(lacks(middle, c));
    assert(lacks(tail, c));
    assert forall|i: int| 0 <= i < full.len() implies full[i] != c by {
        if i < head.len() {
            assert(full[i] == head[i]);
        } else if i < head.len() + middle.len() {
            assert(full[i] == middle[i - head.len()]);
        } else {
            assert(full[i] == tail[i - head.len() - middle.len()]);
        }
    }
}

proof fn schema_name_is_longer(name: Seq<char>)
    ensures
        schema_name(name).len() > name.len(),
        schema_name(name).len() >= 2,
{
    reveal_strlit(".schema-4.");
    reveal_strlit("db");
    last_char_parts(name, '.', name.len() as int);
}

proof fn directory_lacks(path: Seq<char>, c: char)
    requires
        lacks(path, c),
        c != '/',
    ensures
        lacks(directory(path), c),
{
    last_char_parts(path, '/', path.len() as int);
    match last_char(path, '/', path.len() as int) {
        Some(i) => {
            let head = path.subrange(0, i);
            body_is_shorter(head);
            assert forall|k: int| 0 <= k < directory(path).len() implies directory(path)[k] != c by {
                if k < path_body(head).len() {
                    assert(directory(path)[k] == path_body(head)[k]);
                    assert(path_body(head)[k] == path[k]);
                }
            }
        },
        None => {},
    }
}

proof fn file_name_parts(path: Seq<char>, c: char)
    ensures
        lacks(file_name(path), '/'),
        lacks(path, c) ==> lacks(file_name(path), c),
{
    last_char_parts(path, '/', path.len() as int);
}

proof fn joined_file_name(dir: Seq<char>, name: Seq<char>)
    requires
        lacks(name, '/'),
        dir.len() == 0 || dir[dir.len() - 1] == '/',
    ensures
        file_name(dir + name) == name,
{
    let path = dir + name;
    last_char_parts(path, '/', path.len() as int);
    if dir.len() == 0 {
        assert(path =~= name);
    } else {
        assert(path[dir.len() - 1] == '/');
        assert forall|i: int| dir.len() - 1 < i < path.len() implies path[i] != '/' by {
            assert(path[i] == name[i - dir.len()]);
        }
        last_char_there(path, '/', path.len() as int, dir.len() - 1);
        assert(path.subrange(dir.len() as int, path.len() as int) =~= name);
    }
}

/// The new path of a database.
spec fn new_path(path: Seq<char>) -> Seq<char> {
    with_slashes(directory(path_body(path)) + schema_name(file_name(path_body(path))))
}

proof fn new_path_lacks_marks(path: Seq<char>)
    requires
        lacks(path, '?'),
    ensures
        lacks(new_path(path), '?'),
        lacks(new_path(path), '\\'),
{
    let body = path_body(path);
    body_is_shorter(path);
    assert(lacks(body, '?'));
    directory_lacks(body, '?');
    file_name_parts(body, '?');
    schema_name_lacks(file_name(body), '?');
    let plain = directory(body) + schema_name(file_name(body));
    assert(lacks(plain, '?'));
}

proof fn paths_change(path: Seq<char>)
    ensures
        new_path(path) != path,
{
    let body = path_body(path);
    let name = file_name(body);
    let dir = directory(body);
    let plain = dir + schema_name(name);
    if new_path(path) == path {
        assert forall|i: int| 0 <= i < path.len() implies path[i] != '\\' by {
            assert(path[i] == new_path(path)[i]);
        }
        body_is_shorter(path);
        assert(lacks(body, '\\'));
        directory_lacks(body, '\\');
        file_name_parts(body, '\\');
        schema_name_lacks(name, '\\');
        schema_name_lacks(name, '/');
        schema_name_is_longer(name);
        assert(with_slashes(plain) =~= plain) by {
            assert forall|i: int| 0 <= i < plain.len() implies plain[i] != '\\' by {
                if i < dir.len() {
                    assert(plain[i] == dir[i]);
                } else {
                    assert(plain[i] == schema_name(name)[i - dir.len()]);
                }
            }
        }
        assert(path == plain);
        let n = path.len() as int;
        let m = schema_name(name).len() as int;
        assert(path[n - 1] == schema_name(name)[m - 1]);
        assert(path[n - 2] == schema_name(name)[m - 2]);
        assert(path_body(path) == path);
        last_char_parts(body, '/', body.len() as int);
        joined_file_name(dir, schema_name(name));
        assert(name == schema_name(name));
    }
}

proof fn next_char_parts(text: Seq<char>, c: char, start: int)
    requires
        0 <= start <= text.len(),
    ensures
        start <= next_char(text, c, start) <= text.len(),
        forall|i: int| start <= i < next_char(text, c, start) ==> text[i] != c,
        next_char(text, c, start) < text.len() ==> text[next_char(text, c, start)] == c,
    decreases text.len() - start,
{
    if start < text.len() && text[start] != c {
        next_char_parts(text, c, start + 1);
    }
}

proof fn next_char_there(text: Seq<char>, c: char, start: int, at: int)
    requires
        0 <= start <= at <= text.len(),
        at < text.len() ==> text[at] == c,
        forall|i: int| start <= i < at ==> text[i] != c,
    ensures
        next_char(text, c, start) == at,
    decreases at - start,
{
    if start < at {
        next_char_there(text, c, start + 1, at);
    }
}

/// The database for the current schema is never the configured one, so that one is left as it is.
pub proof fn configured_databases_are_left_alone(url: Seq<char>)
    requires
        fallback_of(url) is Ok,
    ensures
        fallback_of(url)->Ok_0 != url,
{
    reveal_strlit("sqlite://");
    let scheme = "sqlite://"@;
    let prefix = before_query(url);
    let path = prefix.subrange(scheme.len() as int, prefix.len() as int);
    let result = fallback_of(url)->Ok_0;
    let rest = query(url);
    next_char_parts(url, '?', 0);
    assert(lacks(path, '?'));
    new_path_lacks_marks(path);
    let front = scheme + new_path(path);
    assert(result == front + rest);
    assert forall|i: int| 0 <= i < front.len() implies result[i] != '?' by {
        assert(result[i] == front[i]);
        if i < scheme.len() {
            assert(front[i] == scheme[i]);
        } else {
            assert(front[i] == new_path(path)[i - scheme.len()]);
        }
    }
    if rest.len() > 0 {
        assert(result[front.len() as int] == rest[0]);
    }
    next_char_there(result, '?', 0, front.len() as int);
    assert(before_query(result) =~= front);
    if result == url {
        assert(prefix == front);
        assert(path =~= new_path(path));
        paths_change(path);
    }
}

/// What becomes of the file of an artifact.
#[derive(Debug, Clone, Copy, PartialEq, Eq, Structural)]
pub enum Removal {
    Removed,
    /// It was not there.
    Absent,
    Failed,
}

/// What is done with an old artifact.
#[derive(Debug, Clone, Copy, PartialEq, Eq, Structural)]
pub enum CleanupStep {
    /// It stays.
    Keep,
    /// Its file is removed.
    RemoveFile,
    /// It is struck from the record.
    Forget,
}

/// What is done with an old artifact: it stays while a scenario or a run refers to it, and where
/// its file cannot be removed.
pub open spec fn cleanup_of(
    scenario_refs: int,
    run_refs: int,
    removal: Option<Removal>,
) -> CleanupStep {
    if scenario_refs + run_refs > 0 {
        CleanupStep::Keep
    } else {
        match removal {
            None => CleanupStep::RemoveFile,
            Some(Removal::Failed) => CleanupStep::Keep,
            Some(_) => CleanupStep::Forget,
        }
    }
}

/// What is done with an old artifact, with what became of its file once that was to be removed.
pub fn cleanup_step(scenario_refs: i64, run_refs: i64, removal: Option<Removal>) -> (r: CleanupStep)
    requires
        i64::MIN <= scenario_refs + run_refs <= i64::MAX,
    ensures
        r == cleanup_of(scenario_refs as int, run_refs as int, removal),
{
    if scenario_refs + run_refs > 0 {
        return CleanupStep::Keep;
    }
    match removal {
        None => CleanupStep::RemoveFile,
        Some(Removal::Failed) => CleanupStep::Keep,
        Some(_) => CleanupStep::Forget,
    }
}

/// An artifact that a scenario or a run refers to keeps its file and its record, and no record is
/// struck while the file is still there.
pub proof fn artifacts_in_use_are_kept(
    scenario_refs: int,
    run_refs: int,
    removal: Option<Removal>,
)
    requires
        scenario_refs >= 0,
        run_refs >= 0,
    ensures
        scenario_refs > 0 || run_refs > 0 ==> cleanup_of(scenario_refs, run_refs, removal)
            == CleanupStep::Keep,
        cleanup_of(scenario_refs, run_refs, removal) == CleanupStep::Forget ==> removal == Some(
            Removal::Removed,
        ) || removal == Some(Removal::Absent),
{
}

proof fn no_mark_before(text: Seq<char>, c: char, start: int)
    requires
        0 <= start <= text.len(),
        forall|i: int| start <= i < text.len() ==> text[i] != c,
    ensures
        next_char(text, c, start) == text.len(),
    decreases text.len() - start,
{
    if start < text.len() {
        no_mark_before(text, c, start + 1);
    }
}

proof fn first_mark_at(text: Seq<char>, c: char, start: int, at: int)
    requires
        0 <= start <= at < text.len(),
        text[at] == c,
        forall|i: int| start <= i < at ==> text[i] != c,
    ensures
        next_char(text, c, start) == at,
    decreases at - start,
{
    if start < at {
        first_mark_at(text, c, start + 1, at);
    }
}

/// The parts of a path whose slashes and dots are those between the parts.
pub open spec fn is_plain_path(folder: Seq<char>, base: Seq<char>, suffix: Seq<char>) -> bool {
    &&& forall|i: int| 0 <= i < folder.len() ==> folder[i] != '?' && folder[i] != '\\'
    &&& folder.len() > 0 ==> folder.last() != '/' && folder.last() != '.'
    &&& base.len() > 0
    &&& base[0] != '.'
    &&& forall|i: int| 0 <= i < base.len() ==> base[i] != '?' && base[i] != '\\' && base[i] != '/'
    &&& suffix.len() > 0
    &&& forall|i: int|
        0 <= i < suffix.len() ==> suffix[i] != '?' && suffix[i] != '\\' && suffix[i] != '/'
            && suffix[i] != '.'
}

proof fn paths_have_their_parts(folder: Seq<char>, base: Seq<char>, suffix: Seq<char>)
    requires
        is_plain_path(folder, base, suffix),
    ensures
        ({
            let path = folder + seq!['/'] + base + seq!['.'] + suffix;
            let name = base + seq!['.'] + suffix;
            &&& path_body(path) == path
            &&& file_name(path) == name
            &&& directory(path) == folder + seq!['/']
        }),
{
    let path = folder + seq!['/'] + base + seq!['.'] + suffix;
    let name = base + seq!['.'] + suffix;
    let slash = folder.len() as int;
    assert(path[slash] == '/');
    assert(path.last() == suffix.last());
    assert forall|i: int| slash < i < path.len() implies path[i] != '/' by {
        if i <= slash + base.len() {
            assert(path[i] == base[i - slash - 1]);
        } else if i > slash + base.len() + 1 {
            assert(path[i] == suffix[i - slash - base.len() - 2]);
        }
    }
    last_char_there(path, '/', path.len() as int, slash);
    assert(file_name(path) =~= name);
    assert(path.subrange(0, slash) =~= folder);
    assert(path_body(folder) == folder);
}

proof fn names_have_their_parts(base: Seq<char>, suffix: Seq<char>)
    requires
        is_plain_path(Seq::empty(), base, suffix),
    ensures
        ({
            let name = base + seq!['.'] + suffix;
            &&& stem(name) == base
            &&& extension(name) == suffix
        }),
{
    let name = base + seq!['.'] + suffix;
    let dot = base.len() as int;
    assert(name[dot] == '.');
    assert forall|i: int| dot < i < name.len() implies name[i] != '.' by {
        assert(name[i] == suffix[i - dot - 1]);
    }
    last_char_there(name, '.', name.len() as int, dot);
    assert(stem(name) =~= base);
    assert(extension(name) =~= suffix);
}

proof fn plain_paths_stay(folder: Seq<char>, base: Seq<char>, suffix: Seq<char>)
    requires
        is_plain_path(folder, base, suffix),
    ensures
        ({
            let file = folder + seq!['/'] + (base + ".schema-4."@ + suffix);
            with_slashes(file) == file
        }),
        ({
            let url = "sqlite://"@ + (folder + seq!['/'] + base + seq!['.'] + suffix);
            forall|i: int| 0 <= i < url.len() ==> url[i] != '?'
        }),
{
    reveal_strlit(".schema-4.");
    reveal_strlit("sqlite://");
    let name = base + ".schema-4."@ + suffix;
    let file = folder + seq!['/'] + name;
    let middle = ".schema-4."@;
    assert(lacks(middle, '\\'));
    assert forall|i: int| 0 <= i < file.len() implies file[i] != '\\' by {
        let k = i - folder.len() - 1;
        if k >= 0 {
            assert(file[i] == name[k]);
            if k < base.len() {
                assert(name[k] == base[k]);
            } else if k < base.len() + middle.len() {
                assert(name[k] == middle[k - base.len()]);
            } else {
                assert(name[k] == suffix[k - base.len() - middle.len()]);
            }
        } else if k < -1 {
            assert(file[i] == folder[i]);
        }
    }
    assert(with_slashes(file) =~= file);
    let path = folder + seq!['/'] + base + seq!['.'] + suffix;
    let url = "sqlite://"@ + path;
    assert(lacks("sqlite://"@, '?'));
    assert forall|i: int| 0 <= i < url.len() implies url[i] != '?' by {
        let k = i - 9;
        if k < 0 {
            assert(url[i] == "sqlite://"@[i]);
        } else {
            assert(url[i] == path[k]);
            let m = k - folder.len() - 1;
            if m < -1 {
                assert(path[k] == folder[k]);
            } else if 0 <= m < base.len() {
                assert(path[k] == base[m]);
            } else if m > base.len() {
                assert(path[k] == suffix[m - base.len() - 1]);
            }
        }
    }
}

/// The database for the current schema stands in the directory of the configured one, under its name
/// with the schema before the extension, and is opened in the same way.
pub proof fn databases_stand_side_by_side(
    folder: Seq<char>,
    base: Seq<char>,
    suffix: Seq<char>,
    options: Seq<char>,
)
    requires
        is_plain_path(folder, base, suffix),
    ensures
        fallback_of("sqlite://"@ + folder + "/"@ + base + "."@ + suffix) == Ok::<
            Seq<char>,
            Seq<char>,
        >("sqlite://"@ + folder + "/"@ + base + ".schema-4."@ + suffix),
        options.len() > 0 ==> fallback_of(
            "sqlite://"@ + folder + "/"@ + base + "."@ + suffix + "?"@ + options,
        ) == Ok::<Seq<char>, Seq<char>>(
            "sqlite://"@ + folder + "/"@ + base + ".schema-4."@ + suffix + "?"@ + options,
        ),
{
    reveal_strlit("sqlite://");
    reveal_strlit("/");
    reveal_strlit(".");
    reveal_strlit("..");
    reveal_strlit("?");
    reveal_strlit(":memory:");
    let scheme = "sqlite://"@;
    let path = folder + seq!['/'] + base + seq!['.'] + suffix;
    let name = base + seq!['.'] + suffix;
    let url = scheme + folder + "/"@ + base + "."@ + suffix;
    assert("/"@ =~= seq!['/'] && "."@ =~= seq!['.']);
    assert(url =~= scheme + path);
    assert(path != ":memory:"@) by {
        assert(path[folder.len() as int] == '/');
        assert(lacks(":memory:"@, '/'));
    }
    paths_have_their_parts(folder, base, suffix);
    names_have_their_parts(base, suffix);
    plain_paths_stay(folder, base, suffix);
    assert(name[0] == base[0]);
    let file = folder + seq!['/'] + (base + ".schema-4."@ + suffix);
    assert(directory(path) + schema_name(name) =~= file);
    let found = scheme + folder + "/"@ + base + ".schema-4."@ + suffix;
    assert(scheme + file =~= found);
    no_mark_before(url, '?', 0);
    assert(before_query(url) =~= url);
    assert(url.subrange(0, scheme.len() as int) =~= scheme);
    assert(url.subrange(scheme.len() as int, url.len() as int) =~= path);
    assert(found + query(url) =~= found);
    if options.len() > 0 {
        let long = url + "?"@ + options;
        let mark = url.len() as int;
        assert forall|i: int| 0 <= i < mark implies long[i] != '?' by {
            assert(long[i] == url[i]);
        }
        first_mark_at(long, '?', 0, mark);
        assert(before_query(long) =~= url);
        assert(query(long) =~= "?"@ + options);
        assert(found + ("?"@ + options) =~= found + "?"@ + options);
    }
}

} // verus!
