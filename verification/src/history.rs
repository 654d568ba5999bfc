//! The rules around the history database: which commands are recorded and
//! with what values, the parameters of the `list`, `search` and `recall`
//! queries, the layout of a listed row, where the database lives, and how
//! an external selector is fed and read.
use vstd::prelude::*;
use crate::cli::{AddArgs, FilterArgs};
use crate::text::{
    blank, chars_of, char_views, contains, contains_chars, dec, dec_int, first_word, is_blank, is_ws,
    occurs_at,
    push_dec_i64, push_str, split_words, string_from_chars,
};

verus! {

// ---------------------------------------------------------------------------
// LIKE patterns
// ---------------------------------------------------------------------------

/// The escape of one character in a `LIKE ... ESCAPE '\'` pattern: the
/// escape character and the two wildcards are preceded by `\`.
pub open spec fn like_escape_char(c: char) -> Seq<char> {
    if c == '\\' || c == '%' || c == '_' {
        seq!['\\', c]
    } else {
        seq![c]
    }
}

/// `s` with each character escaped for a `LIKE` pattern, in order.
pub open spec fn like_escape(s: Seq<char>) -> Seq<char>
    decreases s.len(),
{
    if s.len() == 0 {
        seq![]
    } else {
        like_escape_char(s[0]) + like_escape(s.drop_first())
    }
}

/// The literal text a `LIKE` pattern with escape character `\` stands for,
/// or `None` when the pattern holds an unescaped wildcard or ends in a lone
/// `\`.
pub open spec fn like_literal(p: Seq<char>) -> Option<Seq<char>>
    decreases p.len(),
{
    if p.len() == 0 {
        Some(seq![])
    } else if p[0] == '\\' {
        if p.len() >= 2 {
            match like_literal(p.skip(2)) {
                Some(rest) => Some(seq![p[1]] + rest),
                None => None,
            }
        } else {
            None
        }
    } else if p[0] == '%' || p[0] == '_' {
        None
    } else {
        match like_literal(p.drop_first()) {
            Some(rest) => Some(seq![p[0]] + rest),
            None => None,
        }
    }
}

proof fn lemma_like_escape_append(a: Seq<char>, b: Seq<char>)
    ensures
        like_escape(a + b) == like_escape(a) + like_escape(b),
    decreases a.len(),
{
    if a.len() == 0 {
        assert(a + b == b);
    } else {
        assert((a + b).drop_first() == a.drop_first() + b);
        assert((a + b)[0] == a[0]);
        lemma_like_escape_append(a.drop_first(), b);
    }
}

/// An escaped pattern has no wildcard and stands for exactly the text it
/// was made from: escaping makes every character of the text literal.
pub proof fn lemma_like_escape_literal(s: Seq<char>)
    ensures
        like_literal(like_escape(s)) == Some(s),
    decreases s.len(),
{
    if s.len() > 0 {
        let p = like_escape(s);
        let rest = like_escape(s.drop_first());
        lemma_like_escape_literal(s.drop_first());
        if s[0] == '\\' || s[0] == '%' || s[0] == '_' {
            assert(p == seq!['\\', s[0]] + rest);
            assert(p.skip(2) == rest);
            assert(p[1] == s[0]);
        } else {
            assert(p == seq![s[0]] + rest);
            assert(p.drop_first() == rest);
        }
        assert(seq![s[0]] + s.drop_first() == s);
    } else {
        assert(like_escape(s) == Seq::<char>::empty());
    }
}

/// `c` with ASCII upper-case letters made lower case, as SQL `LIKE`
/// compares letters.
pub open spec fn ascii_fold(c: char) -> char {
    if 'A' <= c && c <= 'Z' {
        ((c as u32) + 32) as char
    } else {
        c
    }
}

/// Whether `s` matches the SQL pattern `p` under `LIKE ... ESCAPE '\'`:
/// `%` matches any run of characters, `_` any one character, `\` makes the
/// next character literal, and letters compare without regard to ASCII
/// case.
pub open spec fn like(p: Seq<char>, s: Seq<char>) -> bool
    decreases p.len(), s.len(),
{
    if p.len() == 0 {
        s.len() == 0
    } else if p[0] == '\\' && p.len() >= 2 {
        s.len() > 0 && ascii_fold(s[0]) == ascii_fold(p[1]) && like(p.skip(2), s.drop_first())
    } else if p[0] == '%' {
        like(p.drop_first(), s) || (s.len() > 0 && like(p, s.drop_first()))
    } else if p[0] == '_' {
        s.len() > 0 && like(p.drop_first(), s.drop_first())
    } else {
        s.len() > 0 && ascii_fold(s[0]) == ascii_fold(p[0]) && like(p.drop_first(), s.drop_first())
    }
}

/// `s` begins with `prefix`, letters compared without regard to ASCII case.
pub open spec fn starts_with_folded(s: Seq<char>, prefix: Seq<char>) -> bool {
    &&& prefix.len() <= s.len()
    &&& forall|i: int| 0 <= i < prefix.len() ==> ascii_fold(#[trigger] s[i]) == ascii_fold(prefix[i])
}

proof fn lemma_percent_matches_all(s: Seq<char>)
    ensures
        like(seq!['%'], s),
    decreases s.len(),
{
    let p = seq!['%'];
    assert(p.drop_first() =~= Seq::<char>::empty());
    assert(p[0] == '%' && p.len() == 1);
    if s.len() > 0 {
        lemma_percent_matches_all(s.drop_first());
        assert(like(p, s.drop_first()));
    } else {
        assert(like(p.drop_first(), s));
    }
}

proof fn lemma_prefix_pattern(prefix: Seq<char>, s: Seq<char>)
    ensures
        like(like_escape(prefix) + seq!['%'], s) <==> starts_with_folded(s, prefix),
    decreases prefix.len(),
{
    if prefix.len() == 0 {
        assert(like_escape(prefix) + seq!['%'] =~= seq!['%']);
        lemma_percent_matches_all(s);
    } else {
        let c = prefix[0];
        let rest = prefix.drop_first();
        let p = like_escape(prefix) + seq!['%'];
        let tail = like_escape(rest) + seq!['%'];
        if s.len() > 0 {
            lemma_prefix_pattern(rest, s.drop_first());
        }
        if c == '\\' || c == '%' || c == '_' {
            assert(p =~= seq!['\\', c] + tail);
            assert(p.skip(2) =~= tail);
        } else {
            assert(p =~= seq![c] + tail);
            assert(p.drop_first() =~= tail);
        }
        if s.len() > 0 {
            if starts_with_folded(s, prefix) {
                assert forall|i: int| 0 <= i < rest.len() implies ascii_fold(
                    #[trigger] s.drop_first()[i],
                ) == ascii_fold(rest[i]) by {
                    assert(s.drop_first()[i] == s[i + 1]);
                    assert(rest[i] == prefix[i + 1]);
                }
            }
            if ascii_fold(s[0]) == ascii_fold(c) && starts_with_folded(s.drop_first(), rest) {
                assert forall|i: int| 0 <= i < prefix.len() implies ascii_fold(#[trigger] s[i])
                    == ascii_fold(prefix[i]) by {
                    if i > 0 {
                        assert(s.drop_first()[i - 1] == s[i]);
                        assert(rest[i - 1] == prefix[i]);
                    }
                }
            }
        }
    }
}

/// The `recall` pattern of a prefix matches exactly the texts that begin
/// with that prefix (ASCII letter case aside), whatever characters the
/// prefix holds.
pub proof fn lemma_recall_pattern_matches_prefix(prefix: Seq<char>, s: Seq<char>)
    ensures
        like(like_escape(prefix).push('%'), s) <==> starts_with_folded(s, prefix),
{
    assert(like_escape(prefix).push('%') =~= like_escape(prefix) + seq!['%']);
    lemma_prefix_pattern(prefix, s);
}

/// `value` with `\`, `%` and `_` escaped by a `\`, so that a `LIKE ...
/// ESCAPE '\'` pattern built from it matches the text literally.
pub fn escape_like(value: &str) -> (r: String)
    ensures
        r@ == like_escape(value@),
{
    let cs = chars_of(value);
    let mut out: Vec<char> = Vec::new();
    for i in 0..cs.len()
        invariant
            cs@ == value@,
            out@ == like_escape(cs@.take(i as int)),
    {
        let c = cs[i];
        proof {
            lemma_like_escape_append(cs@.take(i as int), seq![c]);
            assert(cs@.take(i + 1) == cs@.take(i as int) + seq![c]);
            assert(seq![c].drop_first() == Seq::<char>::empty());
            assert(like_escape(seq![c]) == like_escape_char(c) + like_escape(Seq::<char>::empty()));
            assert(like_escape(seq![c]) == like_escape_char(c));
        }
        if c == '\\' || c == '%' || c == '_' {
            out.push('\\');
        }
        out.push(c);
    }
    assert(cs@.take(cs.len() as int) == cs@);
    string_from_chars(&out)
}

/// The pattern `recall` searches with: the escaped prefix followed by `%`,
/// so that it matches the commands that begin with `prefix`.
pub fn recall_pattern(prefix: &str) -> (r: String)
    ensures
        r@ == like_escape(prefix@).push('%'),
{
    let escaped = escape_like(prefix);
    let mut cs = chars_of(escaped.as_str());
    cs.push('%');
    string_from_chars(&cs)
}

// ---------------------------------------------------------------------------
// Internal commands
// ---------------------------------------------------------------------------

/// The characters after the last `/` of `p` (all of `p` if it has none).
pub open spec fn tail_segment(p: Seq<char>) -> Seq<char>
    decreases p.len(),
{
    if p.len() == 0 || p.last() == '/' {
        seq![]
    } else {
        tail_segment(p.drop_last()).push(p.last())
    }
}

/// The final component of the Unix path `p` (`Path::file_name`): trailing
/// separators and `.` components are skipped; there is none when the path
/// is empty, is the root, or ends in `..`.
pub open spec fn file_name(p: Seq<char>) -> Option<Seq<char>>
    decreases p.len(),
{
    if p.len() == 0 {
        None
    } else if p.last() == '/' {
        file_name(p.drop_last())
    } else {
        let seg = tail_segment(p);
        if seg == seq!['.'] {
            file_name(p.take(p.len() - 1))
        } else if seg == seq!['.', '.'] {
            None
        } else {
            Some(seg)
        }
    }
}

/// `s` without its leading `^` characters.
pub open spec fn strip_carets(s: Seq<char>) -> Seq<char>
    decreases s.len(),
{
    if s.len() > 0 && s[0] == '^' {
        strip_carets(s.drop_first())
    } else {
        s
    }
}

/// A command line that the shell integration itself runs: it mentions one
/// of the integration's own invocations, or its program (after any leading
/// `^`) is `terminal-history` or `commandline`.
pub open spec fn is_internal(command: Seq<char>) -> bool {
    let name = file_name(strip_carets(first_word(command)));
    ||| contains(command, "commandline edit"@)
    ||| contains(command, "terminal-history add"@)
    ||| contains(command, "terminal-history pick"@)
    ||| contains(command, "terminal-history recall"@)
    ||| name == Some("terminal-history"@)
    ||| name == Some("commandline"@)
}

/// A command is recorded when it holds more than white space and is not
/// internal.
pub open spec fn is_recorded(command: Seq<char>) -> bool {
    !(is_blank(command) || is_internal(command))
}

/// A command that holds one of the integration's own invocations
/// (`commandline edit`, `terminal-history add`, `terminal-history pick`,
/// `terminal-history recall`) anywhere in it is internal and is never
/// recorded.
pub proof fn lemma_invocations_are_internal(command: Seq<char>, marker: Seq<char>, at: int)
    requires
        marker == "commandline edit"@ || marker == "terminal-history add"@ || marker
            == "terminal-history pick"@ || marker == "terminal-history recall"@,
        0 <= at,
        at + marker.len() <= command.len(),
        command.subrange(at, at + marker.len()) == marker,
    ensures
        is_internal(command),
        !is_recorded(command),
{
    assert(occurs_at(command, marker, at));
}

proof fn lemma_strip_carets_prefix(k: nat, x: Seq<char>)
    requires
        x.len() == 0 || x[0] != '^',
    ensures
        strip_carets(Seq::new(k, |i: int| '^') + x) == x,
    decreases k,
{
    let s = Seq::new(k, |i: int| '^') + x;
    if k > 0 {
        assert(s[0] == '^');
        assert(s.drop_first() =~= Seq::new((k - 1) as nat, |i: int| '^') + x);
        lemma_strip_carets_prefix((k - 1) as nat, x);
    } else {
        assert(s =~= x);
    }
}

proof fn lemma_tail_segment_after_separator(x: Seq<char>, y: Seq<char>)
    requires
        x.len() == 0 || x.last() == '/',
        forall|i: int| 0 <= i < y.len() ==> #[trigger] y[i] != '/',
    ensures
        tail_segment(x + y) == y,
    decreases y.len(),
{
    if y.len() == 0 {
        assert(x + y =~= x);
    } else {
        let y1 = y.drop_last();
        assert forall|i: int| 0 <= i < y1.len() implies #[trigger] y1[i] != '/' by {
            assert(y1[i] == y[i]);
        }
        lemma_tail_segment_after_separator(x, y1);
        assert((x + y).drop_last() =~= x + y1);
        assert((x + y).last() == y.last());
        assert(y1.push(y.last()) =~= y);
    }
}

/// A command whose program, after any leading `^` and directory, is
/// `terminal-history` or `commandline` is internal and is never recorded,
/// whatever its arguments.
pub proof fn lemma_own_program_is_internal(
    carets: nat,
    dir: Seq<char>,
    name: Seq<char>,
    rest: Seq<char>,
)
    requires
        name == "terminal-history"@ || name == "commandline"@,
        dir.len() == 0 || (dir.last() == '/' && dir[0] != '^'),
        forall|i: int| 0 <= i < dir.len() ==> !is_ws(#[trigger] dir[i]),
        rest.len() == 0 || is_ws(rest[0]),
    ensures
        is_internal(Seq::new(carets, |i: int| '^') + dir + name + rest),
        !is_recorded(Seq::new(carets, |i: int| '^') + dir + name + rest),
{
    reveal_strlit("terminal-history");
    reveal_strlit("commandline");
    let hats = Seq::new(carets, |i: int| '^');
    let program = dir + name;
    let word = hats + program;
    let command = hats + dir + name + rest;
    assert(command =~= word + rest);
    assert(forall|i: int| 0 <= i < name.len() ==> !is_ws(#[trigger] name[i]) && name[i] != '/'
        && name[i] != '.');
    assert forall|i: int| 0 <= i < word.len() implies !is_ws(#[trigger] word[i]) by {
        if i >= carets {
            assert(word[i] == program[i - carets]);
            if i - carets < dir.len() {
                assert(program[i - carets] == dir[i - carets]);
            } else {
                assert(program[i - carets] == name[i - carets - dir.len()]);
            }
        }
    }
    crate::text::lemma_first_word_of(word, rest);
    assert(program[0] != '^') by {
        if dir.len() == 0 {
            assert(program[0] == name[0]);
        } else {
            assert(program[0] == dir[0]);
        }
    }
    lemma_strip_carets_prefix(carets, program);
    assert forall|i: int| 0 <= i < name.len() implies #[trigger] name[i] != '/' by {}
    lemma_tail_segment_after_separator(dir, name);
    assert(program.last() == name.last());
    assert(name != seq!['.']);
    assert(name != seq!['.', '.']);
    assert(file_name(program) == Some(name));
}

/// Whether two character vectors hold the same text.
pub fn chars_eq(a: &Vec<char>, b: &Vec<char>) -> (r: bool)
    ensures
        r == (a@ == b@),
{
    if a.len() != b.len() {
        return false;
    }
    let mut i: usize = 0;
    while i < a.len()
        invariant
            a.len() == b.len(),
            i <= a.len(),
            forall|k: int| 0 <= k < i ==> a@[k] == b@[k],
        decreases a.len() - i,
    {
        if a[i] != b[i] {
            return false;
        }
        i += 1;
    }
    assert(a@ =~= b@);
    true
}

fn tail_start(p: &Vec<char>, end: usize) -> (start: usize)
    requires
        end <= p.len(),
    ensures
        start <= end,
        tail_segment(p@.take(end as int)) == p@.subrange(start as int, end as int),
{
    let mut start = end;
    while start > 0 && p[start - 1] != '/'
        invariant
            start <= end <= p.len(),
            tail_segment(p@.take(end as int)) == tail_segment(p@.take(start as int)) + p@.subrange(
                start as int,
                end as int,
            ),
        decreases start,
    {
        let ghost q = p@.take(start as int);
        assert(q.drop_last() == p@.take(start - 1));
        assert(q.last() == p@[start - 1]);
        assert(p@.subrange(start - 1, end as int) == seq![p@[start - 1]] + p@.subrange(
            start as int,
            end as int,
        ));
        start -= 1;
    }
    assert(tail_segment(p@.take(start as int)) == Seq::<char>::empty());
    start
}

/// The final component of the Unix path `p`.
pub fn path_file_name(p: &Vec<char>) -> (r: Option<Vec<char>>)
    ensures
        r matches Some(v) ==> file_name(p@) == Some(v@),
        r is None ==> file_name(p@) is None,
{
    let mut end = p.len();
    assert(p@.take(end as int) == p@);
    loop
        invariant
            end <= p.len(),
            file_name(p@) == file_name(p@.take(end as int)),
        decreases end,
    {
        let ghost top = end;
        while end > 0 && p[end - 1] == '/'
            invariant
                end <= top,
                end <= p.len(),
                file_name(p@) == file_name(p@.take(end as int)),
            decreases end,
        {
            assert(p@.take(end as int).drop_last() == p@.take(end - 1));
            end -= 1;
        }
        if end == 0 {
            return None;
        }
        let start = tail_start(p, end);
        let ghost q = p@.take(end as int);
        assert(q.last() == p@[end - 1]);
        let seg = slice_chars(p, start, end);
        if seg.len() == 1 && seg[0] == '.' {
            assert(seg@ == seq!['.']);
            assert(q.take(q.len() - 1) == p@.take(end - 1));
            end -= 1;
        } else if seg.len() == 2 && seg[0] == '.' && seg[1] == '.' {
            assert(seg@ == seq!['.', '.']);
            return None;
        } else {
            assert(seg@ != seq!['.']);
            assert(seg@ != seq!['.', '.']);
            return Some(seg);
        }
    }
}

/// The characters of `p` from `start` up to `end`.
pub fn slice_chars(p: &Vec<char>, start: usize, end: usize) -> (r: Vec<char>)
    requires
        start <= end <= p.len(),
    ensures
        r@ == p@.subrange(start as int, end as int),
{
    let mut r: Vec<char> = Vec::new();
    let mut i = start;
    while i < end
        invariant
            start <= i <= end <= p.len(),
            r@ == p@.subrange(start as int, i as int),
        decreases end - i,
    {
        r.push(p[i]);
        assert(p@.subrange(start as int, i + 1) == p@.subrange(start as int, i as int).push(
            p@[i as int],
        ));
        i += 1;
    }
    r
}

fn skip_carets(s: &Vec<char>) -> (r: Vec<char>)
    ensures
        r@ == strip_carets(s@),
{
    let mut i: usize = 0;
    assert(s@.skip(0) == s@);
    while i < s.len() && s[i] == '^'
        invariant
            i <= s.len(),
            strip_carets(s@) == strip_carets(s@.skip(i as int)),
        decreases s.len() - i,
    {
        assert(s@.skip(i as int).drop_first() == s@.skip(i + 1));
        i += 1;
    }
    let r = slice_chars(s, i, s.len());
    assert(r@ == s@.skip(i as int));
    r
}

/// Whether `command` was run by the shell integration itself, so that it is
/// neither recorded nor offered back.
pub fn is_internal_command(command: &str) -> (r: bool)
    ensures
        r == is_internal(command@),
{
    let cs = chars_of(command);
    if contains_chars(&cs, &chars_of("commandline edit")) || contains_chars(
        &cs,
        &chars_of("terminal-history add"),
    ) || contains_chars(&cs, &chars_of("terminal-history pick")) || contains_chars(
        &cs,
        &chars_of("terminal-history recall"),
    ) {
        return true;
    }
    let words = split_words(&cs);
    let first: Vec<char> = if words.len() > 0 {
        slice_chars(&words[0], 0, words[0].len())
    } else {
        Vec::new()
    };
    proof {
        if words@.len() > 0 {
            assert(char_views(words@)[0] == words@[0]@);
            assert(words@[0]@.subrange(0, words@[0]@.len() as int) == words@[0]@);
        }
        assert(first@ == first_word(cs@));
    }
    let executable = skip_carets(&first);
    match path_file_name(&executable) {
        Some(name) => chars_eq(&name, &chars_of("terminal-history")) || chars_eq(
            &name,
            &chars_of("commandline"),
        ),
        None => false,
    }
}

// ---------------------------------------------------------------------------
// Recording
// ---------------------------------------------------------------------------

/// Whether `add` stores `command`: it must hold more than white space and
/// must not come from the shell integration itself.
pub fn should_record(command: &str) -> (r: bool)
    ensures
        r == is_recorded(command@),
{
    let cs = chars_of(command);
    !(blank(&cs) || is_internal_command(command))
}

/// The values of one stored execution.
pub struct Record {
    pub command: String,
    /// The requested time, in nanoseconds since the Unix epoch; the database
    /// moves it past the newest stored time when it is not later.
    pub executed_at: i64,
    pub cwd: String,
    pub shell: String,
    pub hostname: String,
    pub exit_status: Option<i64>,
    pub duration_ms: Option<i64>,
}

/// Why `add` could not build a record.
#[derive(Debug, PartialEq, Eq)]
pub enum AddError {
    /// The clock's nanoseconds since the Unix epoch do not fit in an `i64`.
    ClockOutOfRange,
}

/// The record `add` stores for `args`.  `pwd` is the current directory and
/// `env_hostname` the `HOSTNAME` variable; `now_nanos` is the clock, in
/// nanoseconds since the Unix epoch, which is read and checked even when
/// `args` gives a time.
pub fn new_record(args: AddArgs, pwd: String, env_hostname: Option<String>, now_nanos: u128) -> (r:
    Result<Record, AddError>)
    ensures
        r is Err <==> now_nanos > i64::MAX,
        r matches Ok(rec) ==> {
            &&& rec.command == args.command
            &&& rec.executed_at == match args.timestamp {
                Some(t) => t as int,
                None => now_nanos as int,
            }
            &&& rec.cwd == match args.cwd {
                Some(c) => c,
                None => pwd,
            }
            &&& rec.shell == args.shell
            &&& rec.hostname@ == match args.hostname {
                Some(h) => h@,
                None => match env_hostname {
                    Some(h) => h@,
                    None => Seq::<char>::empty(),
                },
            }
            &&& rec.exit_status == args.status
            &&& rec.duration_ms == args.duration
        },
{
    let cwd = match args.cwd {
        Some(c) => c,
        None => pwd,
    };
    let hostname = match args.hostname {
        Some(h) => h,
        None => match env_hostname {
            Some(h) => h,
            None => String::new(),
        },
    };
    if now_nanos > i64::MAX as u128 {
        return Err(AddError::ClockOutOfRange);
    }
    let executed_at = match args.timestamp {
        Some(t) => t,
        None => now_nanos as i64,
    };
    Ok(
        Record {
            command: args.command,
            executed_at,
            cwd,
            shell: args.shell,
            hostname,
            exit_status: args.status,
            duration_ms: args.duration,
        },
    )
}

// ---------------------------------------------------------------------------
// Listing
// ---------------------------------------------------------------------------

/// The parameters of the `list` and `search` query.
pub struct ListQuery {
    /// A `LIKE` pattern the command must match, if any.
    pub pattern: Option<String>,
    /// The directory the entries must come from, if any.
    pub cwd: Option<String>,
    /// The most entries to return.
    pub limit: i64,
}

/// The query for `list` (no `query`) and `search`.  Without `all` the
/// entries are restricted to one directory, `filter.cwd` or else `pwd`, the
/// current directory, which is then needed; a search text is found anywhere
/// in the command, its own `%` and `_` acting as wildcards.
pub fn list_query(filter: FilterArgs, query: Option<String>, pwd: Option<String>) -> (r: ListQuery)
    requires
        !filter.all ==> pwd is Some,
    ensures
        r.limit == filter.limit,
        filter.all ==> r.cwd is None,
        !filter.all ==> r.cwd == Some(
            match filter.cwd {
                Some(c) => c,
                None => pwd.unwrap(),
            },
        ),
        query is None ==> r.pattern is None,
        query matches Some(q) ==> (r.pattern matches Some(p) && p@ == seq!['%'] + q@ + seq!['%']),
{
    let cwd = if filter.all {
        None
    } else {
        match filter.cwd {
            Some(c) => Some(c),
            None => pwd,
        }
    };
    let pattern = match query {
        Some(q) => {
            let mut cs: Vec<char> = Vec::new();
            cs.push('%');
            push_str(&mut cs, q.as_str());
            cs.push('%');
            Some(string_from_chars(&cs))
        },
        None => None,
    };
    ListQuery { pattern, cwd, limit: filter.limit }
}

/// A numeric column as `list` shows it: its decimal value followed by
/// `unit`, or `-` when absent.
pub open spec fn optional_field(v: Option<i64>, unit: Seq<char>) -> Seq<char> {
    match v {
        Some(x) => dec_int(x as int) + unit,
        None => seq!['-'],
    }
}

/// A number column of `list` shows `-` exactly when the value is unknown.
/// A known value, zero and negative ones included, shows as its decimal
/// numeral (with a leading `-` when negative) followed by the unit.
pub proof fn lemma_optional_field_shows_value(v: Option<i64>, unit: Seq<char>)
    ensures
        (optional_field(v, unit) == seq!['-']) <==> v is None,
        v matches Some(x) ==> (x >= 0 ==> optional_field(v, unit) == dec(x as nat) + unit),
        v matches Some(x) ==> (x < 0 ==> optional_field(v, unit) == seq!['-'] + dec((-x) as nat)
            + unit),
{
    if let Some(x) = v {
        let f = optional_field(v, unit);
        if x >= 0 {
            crate::text::lemma_dec_is_numeral(x as nat);
            if f == seq!['-'] {
                assert(f[0] == dec(x as nat)[0]);
            }
        } else {
            crate::text::lemma_dec_is_numeral((-x) as nat);
            assert(f.len() >= 2);
        }
    }
}

/// One line of `list` output: time, exit status, duration in milliseconds,
/// directory and command, separated by tabs.
pub fn list_row(time: &str, cwd: &str, command: &str, status: Option<i64>, duration: Option<i64>) -> (r:
    String)
    ensures
        r@ == time@ + seq!['\t'] + optional_field(status, seq![]) + seq!['\t'] + optional_field(
            duration,
            seq!['m', 's'],
        ) + seq!['\t'] + cwd@ + seq!['\t'] + command@,
{
    let mut cs: Vec<char> = Vec::new();
    push_str(&mut cs, time);
    cs.push('\t');
    match status {
        Some(v) => push_dec_i64(&mut cs, v),
        None => cs.push('-'),
    }
    cs.push('\t');
    match duration {
        Some(v) => {
            push_dec_i64(&mut cs, v);
            cs.push('m');
            cs.push('s');
        },
        None => cs.push('-'),
    }
    cs.push('\t');
    push_str(&mut cs, cwd);
    cs.push('\t');
    push_str(&mut cs, command);
    assert(cs@ =~= time@ + seq!['\t'] + optional_field(status, seq![]) + seq!['\t']
        + optional_field(duration, seq!['m', 's']) + seq!['\t'] + cwd@ + seq!['\t'] + command@);
    string_from_chars(&cs)
}

// ---------------------------------------------------------------------------
// Database location
// ---------------------------------------------------------------------------

/// Where the database lives below the home directory.
pub open spec fn default_database_suffix() -> Seq<char> {
    ".local/share/terminal-history/history.db"@
}

/// `base` joined with the relative path `rel` (`Path::join`): a separator
/// is added unless `base` is empty or already ends in one.
pub open spec fn join_path(base: Seq<char>, rel: Seq<char>) -> Seq<char> {
    if base.len() == 0 || base.last() == '/' {
        base + rel
    } else {
        base + seq!['/'] + rel
    }
}

/// Why the database path is unknown.
#[derive(Debug, PartialEq, Eq)]
pub enum PathError {
    /// Neither `HISTORY_DATABASE_PATH` nor `HOME` is set.
    HomeNotSet,
}

impl PathError {
    /// The message shown for this error.
    pub fn message(&self) -> (r: &'static str)
        ensures
            r@ == "HOME is not set; set HISTORY_DATABASE_PATH"@,
    {
        "HOME is not set; set HISTORY_DATABASE_PATH"
    }
}

/// The database path: `override_path` (`HISTORY_DATABASE_PATH`) when set,
/// else the default file below `home` (`HOME`).
pub fn database_path(override_path: Option<String>, home: Option<String>) -> (r: Result<
    String,
    PathError,
>)
    ensures
        override_path matches Some(p) ==> r == Ok::<String, PathError>(p),
        override_path is None && home is None ==> r == Err::<String, PathError>(
            PathError::HomeNotSet,
        ),
        override_path is None && home is Some ==> (r matches Ok(p) && p@ == join_path(
            home.unwrap()@,
            default_database_suffix(),
        )),
{
    match override_path {
        Some(p) => Ok(p),
        None => match home {
            None => Err(PathError::HomeNotSet),
            Some(h) => {
                let mut cs = chars_of(h.as_str());
                if cs.len() > 0 && cs[cs.len() - 1] != '/' {
                    cs.push('/');
                }
                push_str(&mut cs, ".local/share/terminal-history/history.db");
                Ok(string_from_chars(&cs))
            },
        },
    }
}

// ---------------------------------------------------------------------------
// External selector
// ---------------------------------------------------------------------------

/// The bytes an external selector reads: each text in UTF-8 followed by a
/// NUL byte.
pub open spec fn nul_terminated(items: Seq<Seq<char>>) -> Seq<u8>
    decreases items.len(),
{
    if items.len() == 0 {
        seq![]
    } else {
        nul_terminated(items.drop_last()) + vstd::utf8::encode_utf8(items.last()).push(0u8)
    }
}

/// The texts held by a sequence of strings.
pub open spec fn string_views(v: Seq<String>) -> Seq<Seq<char>> {
    v.map_values(|s: String| s@)
}

/// What is written to the external selector: every command, NUL-terminated.
pub fn selector_input(commands: &Vec<String>) -> (r: Vec<u8>)
    ensures
        r@ == nul_terminated(string_views(commands@)),
{
    let mut out: Vec<u8> = Vec::new();
    for i in 0..commands.len()
        invariant
            out@ == nul_terminated(string_views(commands@.take(i as int))),
    {
        let bytes = commands[i].as_str().as_bytes();
        let ghost before = out@;
        for j in 0..bytes.len()
            invariant
                out@ == before + bytes@.take(j as int),
        {
            out.push(bytes[j]);
            assert(bytes@.take(j + 1) == bytes@.take(j as int).push(bytes@[j as int]));
        }
        assert(bytes@.take(bytes.len() as int) == bytes@);
        out.push(0u8);
        proof {
            let items = string_views(commands@.take(i + 1));
            assert(items.drop_last() == string_views(commands@.take(i as int)));
            assert(items.last() == commands@[i as int]@);
        }
    }
    assert(commands@.take(commands.len() as int) == commands@);
    out
}

/// `s` without its trailing NUL characters.
pub open spec fn trim_trailing_nuls(s: Seq<char>) -> Seq<char>
    decreases s.len(),
{
    if s.len() > 0 && s.last() == '\0' {
        trim_trailing_nuls(s.drop_last())
    } else {
        s
    }
}

/// `s` without its trailing NUL characters (`trim_end_matches('\0')`).
pub fn strip_trailing_nuls(s: &str) -> (r: String)
    ensures
        r@ == trim_trailing_nuls(s@),
{
    let cs = chars_of(s);
    let mut end = cs.len();
    assert(cs@.take(end as int) == cs@);
    while end > 0 && cs[end - 1] == '\0'
        invariant
            end <= cs.len(),
            trim_trailing_nuls(cs@) == trim_trailing_nuls(cs@.take(end as int)),
        decreases end,
    {
        assert(cs@.take(end as int).drop_last() == cs@.take(end - 1));
        end -= 1;
    }
    let kept = slice_chars(&cs, 0, end);
    assert(kept@ == cs@.take(end as int));
    string_from_chars(&kept)
}

/// What `String::from_utf8_lossy` makes of a byte sequence: the text it
/// encodes, with each invalid sequence replaced by U+FFFD.
pub uninterp spec fn utf8_lossy(bytes: Seq<u8>) -> Seq<char>;

/// Calls `String::from_utf8_lossy`; claims only that the result is the
/// named decoding of the bytes.
#[verifier::external_body]
fn decode_utf8_lossy(bytes: &[u8]) -> (r: String)
    ensures
        r@ == utf8_lossy(bytes@),
{
    String::from_utf8_lossy(bytes).into_owned()
}

/// The command an external selector printed on `stdout`: its text without
/// trailing NUL characters.
pub fn selector_choice(stdout: &[u8]) -> (r: String)
    ensures
        r@ == trim_trailing_nuls(utf8_lossy(stdout@)),
{
    let text = decode_utf8_lossy(stdout);
    strip_trailing_nuls(text.as_str())
}

} // verus!
