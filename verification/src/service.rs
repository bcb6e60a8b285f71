//! System service management: the files that are written, the commands that are
//! run, and how arguments are quoted in both.
use vstd::prelude::*;
use vstd::string::StringExecFns;
use vstd::string::StrSliceExecFns;
use crate::config::ServiceAction;
use crate::text;

verus! {

pub const SERVICE_NAME: &'static str = "auto-server";

pub const SYSTEMD_UNIT_PATH: &'static str = "/etc/systemd/system/auto-server.service";

pub const SYSV_SCRIPT_PATH: &'static str = "/etc/init.d/auto-server";

// ---------------------------------------------------------------------------
// Quoting
// ---------------------------------------------------------------------------

/// The texts that a function on characters makes, one behind the other.
pub open spec fn spelled(piece: spec_fn(char) -> Seq<char>, s: Seq<char>) -> Seq<char>
    decreases s.len(),
{
    if s.len() == 0 {
        Seq::empty()
    } else {
        piece(s[0]) + spelled(piece, s.drop_first())
    }
}

proof fn lemma_spelled_push(piece: spec_fn(char) -> Seq<char>, s: Seq<char>, c: char)
    ensures
        spelled(piece, s.push(c)) == spelled(piece, s) + piece(c),
    decreases s.len(),
{
    let t = s.push(c);
    if s.len() == 0 {
        assert(t.drop_first() == s);
        assert(spelled(piece, s) == Seq::<char>::empty());
        assert(spelled(piece, t) == piece(c) + spelled(piece, s));
    } else {
        lemma_spelled_push(piece, s.drop_first(), c);
        assert(t.drop_first() == s.drop_first().push(c));
        assert(spelled(piece, t) == piece(s[0]) + spelled(piece, t.drop_first()));
    }
}

/// A character inside the double quotes of a unit file: quotes and backslashes
/// have a backslash in front.
pub open spec fn systemd_piece(c: char) -> Seq<char> {
    if c == '\\' {
        seq!['\\', '\\']
    } else if c == '"' {
        seq!['\\', '"']
    } else {
        seq![c]
    }
}

/// A token in double quotes.
pub open spec fn systemd_quoted(s: Seq<char>) -> Seq<char> {
    seq!['"'] + spelled(|c: char| systemd_piece(c), s) + seq!['"']
}

/// Quotes a token for a unit file.
pub fn systemd_quote(s: &str) -> (r: String)
    ensures
        r@ == systemd_quoted(s@),
{
    let mut out = String::new();
    out.push('"');
    let cs = text::chars_of(s);
    let n: usize = cs.len();
    let ghost piece = |c: char| systemd_piece(c);
    assert(s@.take(0) == Seq::<char>::empty());
    assert(out@ == seq!['"'] + spelled(piece, s@.take(0)));
    for i in 0..n
        invariant
            cs@ == s@,
            n == s@.len(),
            piece == (|c: char| systemd_piece(c)),
            out@ == seq!['"'] + spelled(piece, s@.take(i as int)),
    {
        let c = cs[i];
        proof {
            assert(s@.take(i + 1) == s@.take(i as int).push(c));
            lemma_spelled_push(piece, s@.take(i as int), c);
        }
        let ghost before = out@;
        if c == '\\' {
            out.push('\\');
            out.push('\\');
        } else if c == '"' {
            out.push('\\');
            out.push('"');
        } else {
            out.push(c);
        }
        assert(out@ == before + systemd_piece(c));
        assert(before + systemd_piece(c) == seq!['"'] + (spelled(piece, s@.take(i as int))
            + systemd_piece(c)));
    }
    assert(s@.take(n as int) == s@);
    out.push('"');
    assert(out@ == systemd_quoted(s@));
    out
}

/// A character inside the single quotes of a shell: a single quote ends the
/// quotes, stands behind a backslash, and begins them again.
pub open spec fn sh_piece(c: char) -> Seq<char> {
    if c == '\'' {
        seq!['\'', '\\', '\'', '\'']
    } else {
        seq![c]
    }
}

/// A token in single quotes.
pub open spec fn sh_quoted(s: Seq<char>) -> Seq<char> {
    seq!['\''] + spelled(|c: char| sh_piece(c), s) + seq!['\'']
}

/// Quotes a token for a shell.
pub fn sh_quote(s: &str) -> (r: String)
    ensures
        r@ == sh_quoted(s@),
{
    let mut out = String::new();
    out.push('\'');
    let cs = text::chars_of(s);
    let n: usize = cs.len();
    let ghost piece = |c: char| sh_piece(c);
    assert(s@.take(0) == Seq::<char>::empty());
    assert(out@ == seq!['\''] + spelled(piece, s@.take(0)));
    for i in 0..n
        invariant
            cs@ == s@,
            n == s@.len(),
            piece == (|c: char| sh_piece(c)),
            out@ == seq!['\''] + spelled(piece, s@.take(i as int)),
    {
        let c = cs[i];
        proof {
            assert(s@.take(i + 1) == s@.take(i as int).push(c));
            lemma_spelled_push(piece, s@.take(i as int), c);
        }
        let ghost before = out@;
        if c == '\'' {
            out.push('\'');
            out.push('\\');
            out.push('\'');
            out.push('\'');
        } else {
            out.push(c);
        }
        assert(out@ == before + sh_piece(c));
        assert(before + sh_piece(c) == seq!['\''] + (spelled(piece, s@.take(i as int)) + sh_piece(
            c,
        )));
    }
    assert(s@.take(n as int) == s@);
    out.push('\'');
    assert(out@ == sh_quoted(s@));
    out
}

/// A character inside the double quotes of a shell: whatever has a meaning there
/// has a backslash in front.
pub open spec fn dq_piece(c: char) -> Seq<char> {
    if c == '\\' || c == '"' || c == '$' || c == '`' {
        seq!['\\', c]
    } else {
        seq![c]
    }
}

/// A text in the double quotes of a shell.
pub open spec fn dq_quoted(s: Seq<char>) -> Seq<char> {
    seq!['"'] + spelled(|c: char| dq_piece(c), s) + seq!['"']
}

/// Puts a text into double quotes for a shell.
pub fn dq_quote(s: &str) -> (r: String)
    ensures
        r@ == dq_quoted(s@),
{
    let mut out = String::new();
    out.push('"');
    let cs = text::chars_of(s);
    let n: usize = cs.len();
    let ghost piece = |c: char| dq_piece(c);
    assert(s@.take(0) == Seq::<char>::empty());
    assert(out@ == seq!['"'] + spelled(piece, s@.take(0)));
    for i in 0..n
        invariant
            cs@ == s@,
            n == s@.len(),
            piece == (|c: char| dq_piece(c)),
            out@ == seq!['"'] + spelled(piece, s@.take(i as int)),
    {
        let c = cs[i];
        proof {
            assert(s@.take(i + 1) == s@.take(i as int).push(c));
            lemma_spelled_push(piece, s@.take(i as int), c);
        }
        let ghost before = out@;
        if c == '\\' || c == '"' || c == '$' || c == '`' {
            out.push('\\');
        }
        out.push(c);
        assert(out@ == before + dq_piece(c));
        assert(before + dq_piece(c) == seq!['"'] + (spelled(piece, s@.take(i as int)) + dq_piece(
            c,
        )));
    }
    assert(s@.take(n as int) == s@);
    out.push('"');
    assert(out@ == dq_quoted(s@));
    out
}

/// Words with a space between each two.
pub open spec fn joined(words: Seq<Seq<char>>) -> Seq<char>
    decreases words.len(),
{
    if words.len() == 0 {
        Seq::empty()
    } else if words.len() == 1 {
        words[0]
    } else {
        joined(words.drop_last()) + seq![' '] + words.last()
    }
}

/// Joins words with a space between each two.
fn join_words(words: &Vec<String>) -> (r: String)
    ensures
        r@ == joined(text::views(words@)),
{
    let ghost all = text::views(words@);
    let mut out = String::new();
    let n: usize = words.len();
    assert(all.take(0) == Seq::<Seq<char>>::empty());
    for i in 0..n
        invariant
            n == words@.len(),
            all == text::views(words@),
            out@ == joined(all.take(i as int)),
    {
        assert(all.take(i + 1).drop_last() == all.take(i as int));
        assert(all.take(i + 1).last() == words@[i as int]@);
        if i > 0 {
            out.push(' ');
        } else {
            assert(out@ == Seq::<char>::empty());
        }
        let ghost before = out@;
        out.append(words[i].as_str());
        assert(i == 0 ==> out@ == words@[i as int]@);
        assert(i > 0 ==> out@ == joined(all.take(i as int)) + seq![' '] + words@[i as int]@);
    }
    assert(all.take(n as int) == all);
    out
}

/// Tokens, each quoted for a unit file.
pub open spec fn systemd_words(words: Seq<Seq<char>>) -> Seq<Seq<char>> {
    words.map_values(|w: Seq<char>| systemd_quoted(w))
}

/// Tokens, each quoted for a shell.
pub open spec fn sh_words(words: Seq<Seq<char>>) -> Seq<Seq<char>> {
    words.map_values(|w: Seq<char>| sh_quoted(w))
}

/// The command line of a unit file: the binary and its arguments, quoted.
pub open spec fn exec_line(bin: Seq<char>, args: Seq<Seq<char>>) -> Seq<char> {
    joined(systemd_words(seq![bin] + args))
}

/// Writes the command line of a unit file.
pub fn systemd_exec(bin: &str, args: &Vec<String>) -> (r: String)
    ensures
        r@ == exec_line(bin@, text::views(args@)),
{
    let mut parts: Vec<String> = Vec::new();
    parts.push(systemd_quote(bin));
    let n: usize = args.len();
    let ghost want = systemd_words(seq![bin@] + text::views(args@));
    for i in 0..n
        invariant
            n == args@.len(),
            want == systemd_words(seq![bin@] + text::views(args@)),
            parts@.len() == i + 1,
            forall|k: int| 0 <= k < parts@.len() ==> (#[trigger] parts@[k])@ == want[k],
    {
        parts.push(systemd_quote(args[i].as_str()));
    }
    assert(text::views(parts@) == want);
    join_words(&parts)
}

/// Quotes arguments for a shell and joins them.
pub fn sh_quote_join(args: &Vec<String>) -> (r: String)
    ensures
        r@ == joined(sh_words(text::views(args@))),
{
    let mut parts: Vec<String> = Vec::new();
    let n: usize = args.len();
    let ghost want = sh_words(text::views(args@));
    for i in 0..n
        invariant
            n == args@.len(),
            want == sh_words(text::views(args@)),
            parts@.len() == i,
            forall|k: int| 0 <= k < i ==> (#[trigger] parts@[k])@ == want[k],
    {
        parts.push(sh_quote(args[i].as_str()));
    }
    assert(text::views(parts@) == want);
    join_words(&parts)
}

// ---------------------------------------------------------------------------
// Reading quoted words back
// ---------------------------------------------------------------------------

/// A reader of words: inside quotes or not, the word that is being read, if
/// any, and the words that were read.
#[verifier::ext_equal]
pub struct Reader {
    pub quoted: bool,
    pub word: Option<Seq<char>>,
    pub words: Seq<Seq<char>>,
}

impl Reader {
    /// Before anything was read.
    pub open spec fn start() -> Reader {
        Reader { quoted: false, word: None, words: Seq::empty() }
    }

    /// One more character of the word.
    pub open spec fn add(self, c: char) -> Reader {
        Reader {
            word: Some(
                match self.word {
                    Some(w) => w.push(c),
                    None => seq![c],
                },
            ),
            ..self
        }
    }

    /// The beginning of quotes.
    pub open spec fn open(self) -> Reader {
        Reader {
            quoted: true,
            word: Some(
                match self.word {
                    Some(w) => w,
                    None => Seq::empty(),
                },
            ),
            ..self
        }
    }

    /// A text that belongs to the word, with nothing in it taken apart.
    pub open spec fn append(self, text: Seq<char>) -> Reader {
        Reader {
            word: Some(
                match self.word {
                    Some(w) => w + text,
                    None => text,
                },
            ),
            ..self
        }
    }

    /// The end of quotes.
    pub open spec fn close(self) -> Reader {
        Reader { quoted: false, ..self }
    }

    /// The end of a word.
    pub open spec fn flush(self) -> Reader {
        match self.word {
            Some(w) => Reader { quoted: false, word: None, words: self.words.push(w) },
            None => self,
        }
    }
}

/// The variables of a shell, by name.
pub type Variables = Map<Seq<char>, Seq<char>>;

/// What a shell puts in the place of a variable: nothing when it is not set.
pub open spec fn value_of(vars: Variables, name: Seq<char>) -> Seq<char> {
    if vars.contains_key(name) {
        vars[name]
    } else {
        Seq::empty()
    }
}

/// Whether a character belongs to a name, as names are written here.
pub open spec fn is_name_char(c: char) -> bool {
    'A' <= c <= 'Z' || c == '_'
}

/// The length of the name that a text begins with.
pub open spec fn name_len(s: Seq<char>) -> int
    decreases s.len(),
{
    if s.len() == 0 || !is_name_char(s[0]) {
        0
    } else {
        1 + name_len(s.skip(1))
    }
}

/// What a POSIX shell makes of a text behind an opening double quote: the value
/// up to the closing one, put behind `value`, and what follows that. A
/// backslash takes a `$`, a backquote, a double quote or a backslash as it is,
/// and a line break away; before anything else it stands for itself. A variable
/// is replaced by its value. Other expansions are not read.
pub open spec fn dq_read(s: Seq<char>, vars: Variables, value: Seq<char>) -> Option<
    (Seq<char>, Seq<char>),
>
    decreases s.len(),
{
    if s.len() == 0 {
        None
    } else if s[0] == '"' {
        Some((value, s.skip(1)))
    } else if s[0] == '`' {
        None
    } else if s[0] == '$' {
        let n = name_len(s.skip(1));
        if 0 < n < s.len() {
            dq_read(s.skip(1 + n), vars, value + value_of(vars, s.subrange(1, 1 + n)))
        } else {
            None
        }
    } else if s[0] == '\\' && s.len() > 1 && dq_piece(s[1]).len() == 2 {
        dq_read(s.skip(2), vars, value.push(s[1]))
    } else if s[0] == '\\' && s.len() > 1 && s[1] == '\n' {
        dq_read(s.skip(2), vars, value)
    } else {
        dq_read(s.skip(1), vars, value.push(s[0]))
    }
}

/// Whether a character stands for itself in a shell, outside quotes.
pub open spec fn is_plain(c: char) -> bool {
    'a' <= c <= 'z' || 'A' <= c <= 'Z' || '0' <= c <= '9' || c == '-' || c == '_' || c == '.' || c
        == '/'
}

/// What a POSIX shell makes of a line of words, quotes and escapes: inside
/// single quotes every character counts, and inside double quotes variables are
/// replaced; outside, a backslash takes the next character as it is, and a
/// space ends a word. A line with anything else outside quotes is not read.
pub open spec fn sh_read(s: Seq<char>, vars: Variables, r: Reader) -> Option<Seq<Seq<char>>>
    decreases s.len(),
{
    if s.len() == 0 {
        if r.quoted {
            None
        } else {
            Some(r.flush().words)
        }
    } else if r.quoted {
        if s[0] == '\'' {
            sh_read(s.skip(1), vars, r.close())
        } else {
            sh_read(s.skip(1), vars, r.add(s[0]))
        }
    } else if s[0] == '\'' {
        sh_read(s.skip(1), vars, r.open())
    } else if s[0] == '"' {
        match dq_read(s.skip(1), vars, Seq::empty()) {
            Some((value, rest)) => if rest.len() < s.len() {
                sh_read(rest, vars, r.append(value))
            } else {
                None
            },
            None => None,
        }
    } else if s[0] == '\\' {
        if s.len() < 2 || s[1] == '\n' {
            None
        } else {
            sh_read(s.skip(2), vars, r.add(s[1]))
        }
    } else if s[0] == ' ' {
        sh_read(s.skip(1), vars, r.flush())
    } else if is_plain(s[0]) {
        sh_read(s.skip(1), vars, r.add(s[0]))
    } else {
        None
    }
}

/// What a unit file makes of a line of double-quoted words, before it expands
/// anything in them: inside the quotes a backslash takes the next character as
/// it is; outside, a space ends a word.
pub open spec fn systemd_read(s: Seq<char>, r: Reader) -> Option<Seq<Seq<char>>>
    decreases s.len(),
{
    if s.len() == 0 {
        if r.quoted {
            None
        } else {
            Some(r.flush().words)
        }
    } else if r.quoted {
        if s[0] == '"' {
            systemd_read(s.skip(1), r.close())
        } else if s[0] == '\\' {
            if s.len() < 2 {
                None
            } else {
                systemd_read(s.skip(2), r.add(s[1]))
            }
        } else {
            systemd_read(s.skip(1), r.add(s[0]))
        }
    } else if s[0] == '"' {
        systemd_read(s.skip(1), r.open())
    } else if s[0] == ' ' {
        systemd_read(s.skip(1), r.flush())
    } else {
        systemd_read(s.skip(1), r.add(s[0]))
    }
}

proof fn lemma_sh_body(
    s: Seq<char>,
    vars: Variables,
    w: Seq<char>,
    words: Seq<Seq<char>>,
    rest: Seq<char>,
)
    ensures
        sh_read(
            spelled(|c: char| sh_piece(c), s) + (seq!['\''] + rest),
            vars,
            Reader { quoted: true, word: Some(w), words },
        ) == sh_read(rest, vars, Reader { quoted: false, word: Some(w + s), words }),
    decreases s.len(),
{
    let piece = |c: char| sh_piece(c);
    let tail = seq!['\''] + rest;
    let r = Reader { quoted: true, word: Some(w), words };
    let all = spelled(piece, s) + tail;
    if s.len() == 0 {
        assert(all == tail);
        assert(all.skip(1) == rest);
        assert(w + s == w);
    } else {
        let c = s[0];
        let more = spelled(piece, s.drop_first()) + tail;
        assert(all == sh_piece(c) + more);
        lemma_sh_body(s.drop_first(), vars, w.push(c), words, rest);
        assert(w.push(c) + s.drop_first() == w + s);
        if c == '\'' {
            let one = all.skip(1);
            let three = one.skip(2);
            let out = Reader { quoted: false, word: Some(w), words };
            assert(sh_read(all, vars, r) == sh_read(one, vars, out));
            assert(one[0] == '\\');
            assert(one[1] == '\'');
            assert(sh_read(one, vars, out) == sh_read(three, vars, out.add('\'')));
            assert(three[0] == '\'');
            assert(three.skip(1) == more);
            assert(sh_read(three, vars, out.add('\'')) == sh_read(more, vars, r.add('\'')));
        } else {
            assert(all[0] == c);
            assert(all.skip(1) == more);
        }
    }
}

proof fn lemma_systemd_body(s: Seq<char>, w: Seq<char>, words: Seq<Seq<char>>, rest: Seq<char>)
    ensures
        systemd_read(
            spelled(|c: char| systemd_piece(c), s) + (seq!['"'] + rest),
            Reader { quoted: true, word: Some(w), words },
        ) == systemd_read(rest, Reader { quoted: false, word: Some(w + s), words }),
    decreases s.len(),
{
    let piece = |c: char| systemd_piece(c);
    let tail = seq!['"'] + rest;
    let r = Reader { quoted: true, word: Some(w), words };
    let all = spelled(piece, s) + tail;
    if s.len() == 0 {
        assert(all == tail);
        assert(all.skip(1) == rest);
        assert(w + s == w);
    } else {
        let c = s[0];
        let more = spelled(piece, s.drop_first()) + tail;
        assert(all == systemd_piece(c) + more);
        lemma_systemd_body(s.drop_first(), w.push(c), words, rest);
        assert(w.push(c) + s.drop_first() == w + s);
        if c == '\\' || c == '"' {
            assert(all[0] == '\\');
            assert(all[1] == c);
            assert(all.skip(2) == more);
        } else {
            assert(all[0] == c);
            assert(all.skip(1) == more);
        }
    }
}

proof fn lemma_sh_word(
    s: Seq<char>,
    vars: Variables,
    words: Seq<Seq<char>>,
    rest: Seq<char>,
)
    ensures
        sh_read(sh_quoted(s) + rest, vars, Reader { quoted: false, word: None, words }) == sh_read(
            rest,
            vars,
            Reader { quoted: false, word: Some(s), words },
        ),
{
    let all = sh_quoted(s) + rest;
    let inner = spelled(|c: char| sh_piece(c), s) + (seq!['\''] + rest);
    let nothing = Seq::<char>::empty();
    assert(all[0] == '\'');
    assert(all.skip(1) == inner);
    lemma_sh_body(s, vars, nothing, words, rest);
    assert(nothing + s == s);
}

proof fn lemma_systemd_word(s: Seq<char>, words: Seq<Seq<char>>, rest: Seq<char>)
    ensures
        systemd_read(systemd_quoted(s) + rest, Reader { quoted: false, word: None, words })
            == systemd_read(rest, Reader { quoted: false, word: Some(s), words }),
{
    let all = systemd_quoted(s) + rest;
    let inner = spelled(|c: char| systemd_piece(c), s) + (seq!['"'] + rest);
    let nothing = Seq::<char>::empty();
    assert(all[0] == '"');
    assert(all.skip(1) == inner);
    lemma_systemd_body(s, nothing, words, rest);
    assert(nothing + s == s);
}

proof fn lemma_sh_line(
    words: Seq<Seq<char>>,
    vars: Variables,
    before: Seq<Seq<char>>,
    rest: Seq<char>,
)
    requires
        words.len() > 0,
    ensures
        sh_read(
            joined(sh_words(words)) + rest,
            vars,
            Reader { quoted: false, word: None, words: before },
        ) == sh_read(
            rest,
            vars,
            Reader { quoted: false, word: Some(words.last()), words: before + words.drop_last() },
        ),
    decreases words.len(),
{
    let quoted = sh_words(words);
    let last = words.last();
    if words.len() == 1 {
        assert(quoted[0] == sh_quoted(last));
        assert(before + words.drop_last() == before);
        lemma_sh_word(last, vars, before, rest);
    } else {
        let front = words.drop_last();
        let tail = sh_quoted(last) + rest;
        assert(quoted.drop_last() == sh_words(front));
        assert(quoted.last() == sh_quoted(last));
        assert(joined(quoted) + rest == joined(sh_words(front)) + (seq![' '] + tail));
        lemma_sh_line(front, vars, before, seq![' '] + tail);
        let r = Reader {
            quoted: false,
            word: Some(front.last()),
            words: before + front.drop_last(),
        };
        assert((seq![' '] + tail)[0] == ' ');
        assert((seq![' '] + tail).skip(1) == tail);
        assert((before + front.drop_last()).push(front.last()) == before + front);
        assert(r.flush() == (Reader { quoted: false, word: None, words: before + front }));
        lemma_sh_word(last, vars, before + front, rest);
    }
}

proof fn lemma_systemd_line(words: Seq<Seq<char>>, rest: Seq<char>)
    requires
        words.len() > 0,
    ensures
        systemd_read(joined(systemd_words(words)) + rest, Reader::start()) == systemd_read(
            rest,
            Reader { quoted: false, word: Some(words.last()), words: words.drop_last() },
        ),
    decreases words.len(),
{
    let quoted = systemd_words(words);
    let last = words.last();
    if words.len() == 1 {
        assert(quoted[0] == systemd_quoted(last));
        assert(words.drop_last() == Seq::<Seq<char>>::empty());
        lemma_systemd_word(last, Seq::empty(), rest);
    } else {
        let front = words.drop_last();
        let tail = systemd_quoted(last) + rest;
        assert(quoted.drop_last() == systemd_words(front));
        assert(quoted.last() == systemd_quoted(last));
        assert(joined(quoted) + rest == joined(systemd_words(front)) + (seq![' '] + tail));
        lemma_systemd_line(front, seq![' '] + tail);
        let r = Reader { quoted: false, word: Some(front.last()), words: front.drop_last() };
        assert((seq![' '] + tail)[0] == ' ');
        assert((seq![' '] + tail).skip(1) == tail);
        assert(front.drop_last().push(front.last()) == front);
        assert(r.flush() == (Reader { quoted: false, word: None, words: front }));
        lemma_systemd_word(last, front, rest);
    }
}

/// Arguments that are quoted for a shell are read back as they are, whatever
/// they hold and whatever was read before them.
pub proof fn lemma_sh_round_trip(args: Seq<Seq<char>>, vars: Variables, before: Seq<Seq<char>>)
    ensures
        sh_read(
            joined(sh_words(args)),
            vars,
            Reader { quoted: false, word: None, words: before },
        ) == Some(before + args),
{
    let nothing = Seq::<char>::empty();
    let line = joined(sh_words(args));
    if args.len() == 0 {
        assert(line == nothing);
        assert(before + args == before);
    } else {
        lemma_sh_line(args, vars, before, nothing);
        assert(line + nothing == line);
        assert((before + args.drop_last()).push(args.last()) == before + args);
    }
}

/// The command line of a unit file is split into the binary and its arguments
/// again, whatever they hold.
pub proof fn lemma_exec_round_trip(bin: Seq<char>, args: Seq<Seq<char>>)
    ensures
        systemd_read(exec_line(bin, args), Reader::start()) == Some(seq![bin] + args),
{
    let nothing = Seq::<char>::empty();
    let words = seq![bin] + args;
    let line = exec_line(bin, args);
    lemma_systemd_line(words, nothing);
    assert(line + nothing == line);
    assert(words.drop_last().push(words.last()) == words);
}

// ---------------------------------------------------------------------------
// Files
// ---------------------------------------------------------------------------

/// The unit file, up to its command line.
pub const UNIT_HEAD: &'static str = "[Unit]
Description=auto-server SOCKS + HTTP CONNECT proxy
After=network-online.target
Wants=network-online.target

[Service]
Type=simple
ExecStart=";

/// The unit file, behind its command line.
pub const UNIT_TAIL: &'static str = "
Restart=on-failure
RestartSec=5

[Install]
WantedBy=multi-user.target
";

/// The unit file for a binary and its arguments.
pub open spec fn unit_of(bin: Seq<char>, args: Seq<Seq<char>>) -> Seq<char> {
    UNIT_HEAD@ + exec_line(bin, args) + UNIT_TAIL@
}

/// Writes the unit file for a binary and its arguments.
pub fn systemd_unit(bin: &str, args: &Vec<String>) -> (r: String)
    ensures
        r@ == unit_of(bin@, text::views(args@)),
{
    let exec = systemd_exec(bin, args);
    text::concat_three(UNIT_HEAD, exec.as_str(), UNIT_TAIL)
}

/// The init script, up to the binary.
pub const SCRIPT_HEAD: &'static str = "#!/bin/sh
### BEGIN INIT INFO
# Provides:          auto-server
# Required-Start:    $network $remote_fs $syslog
# Required-Stop:     $network $remote_fs $syslog
# Default-Start:     2 3 4 5
# Default-Stop:      0 1 6
# Short-Description: auto-server SOCKS + HTTP CONNECT proxy
# Description:       auto-server proxy server
### END INIT INFO

NAME=auto-server
DAEMON=";

/// The init script, between the binary and its arguments.
pub const SCRIPT_MIDDLE: &'static str = "
DAEMON_ARGS=";

/// The init script, from behind the arguments up to the command that starts the
/// daemon. The command is the text of a here-document, in which the arguments
/// take the place of their variable, each in its own quotes; the variable of
/// the binary is kept as it is. What comes of that is run.
pub const SCRIPT_START: &'static str = "
PIDFILE=/var/run/auto-server.pid
LOGFILE=/var/log/auto-server.log

start() {
    if [ -f \"$PIDFILE\" ] && kill -0 \"$(cat \"$PIDFILE\")\" 2>/dev/null; then
        echo \"$NAME is already running\"
        return 0
    fi
    echo \"Starting $NAME...\"
    eval \"$(
        DAEMON='$DAEMON'
        cat <<EOF
";

/// The command that starts the daemon, up to its redirections.
pub const START_COMMAND: &'static str = "setsid \"$DAEMON\" $DAEMON_ARGS";

/// The init script, from the redirections of that command on.
pub const SCRIPT_TAIL: &'static str = " >\"$LOGFILE\" 2>&1 < /dev/null &
EOF
    )\"
    echo $! > \"$PIDFILE\"
    return 0
}

stop() {
    if [ ! -f \"$PIDFILE\" ] || ! kill -0 \"$(cat \"$PIDFILE\")\" 2>/dev/null; then
        echo \"$NAME is not running\"
        return 0
    fi
    echo \"Stopping $NAME...\"
    kill \"$(cat \"$PIDFILE\")\" 2>/dev/null
    rm -f \"$PIDFILE\"
    return 0
}

case \"$1\" in
    start) start ;;
    stop) stop ;;
    restart) stop; start ;;
    status)
        if [ -f \"$PIDFILE\" ] && kill -0 \"$(cat \"$PIDFILE\")\" 2>/dev/null; then
            echo \"$NAME is running (pid $(cat \"$PIDFILE\"))\"; exit 0
        else
            echo \"$NAME is not running\"; exit 3
        fi
        ;;
    *) echo \"Usage: $0 {start|stop|restart|status}\"; exit 1 ;;
esac
exit 0
";

/// The init script for a binary and its arguments.
pub open spec fn script_of(bin: Seq<char>, args: Seq<Seq<char>>) -> Seq<char> {
    SCRIPT_HEAD@ + dq_quoted(bin) + SCRIPT_MIDDLE@ + dq_quoted(joined(sh_words(args)))
        + SCRIPT_START@ + START_COMMAND@ + SCRIPT_TAIL@
}

/// Writes the init script for a binary and its arguments. It serves OpenRC and
/// SysV alike.
pub fn init_script(bin: &str, args: &Vec<String>) -> (r: String)
    ensures
        r@ == script_of(bin@, text::views(args@)),
{
    let quoted = sh_quote_join(args);
    let daemon = dq_quote(bin);
    let daemon_args = dq_quote(quoted.as_str());
    let front = text::concat_three(SCRIPT_HEAD, daemon.as_str(), SCRIPT_MIDDLE);
    let middle = text::concat_three(front.as_str(), daemon_args.as_str(), SCRIPT_START);
    text::concat_three(middle.as_str(), START_COMMAND, SCRIPT_TAIL)
}

/// The value that a text gives a variable when it stands behind the `=` of an
/// assignment and begins with a double quote, and what follows it.
pub open spec fn assigned(s: Seq<char>) -> Option<(Seq<char>, Seq<char>)> {
    if s.len() > 0 && s[0] == '"' {
        dq_read(s.skip(1), Map::empty(), Seq::empty())
    } else {
        None
    }
}

/// What a shell makes of the text of a here-document, where it holds neither
/// backslashes nor backquotes: variables are replaced, and quotes stay.
pub open spec fn here_document(s: Seq<char>, vars: Variables) -> Seq<char>
    decreases s.len(),
{
    if s.len() == 0 {
        Seq::empty()
    } else if s[0] == '$' && 0 < name_len(s.skip(1)) < s.len() {
        let n = name_len(s.skip(1));
        value_of(vars, s.subrange(1, 1 + n)) + here_document(s.skip(1 + n), vars)
    } else {
        seq![s[0]] + here_document(s.skip(1), vars)
    }
}

/// The variables of the subshell that writes the command.
pub open spec fn writing_variables(args: Seq<char>) -> Variables {
    map!["DAEMON"@ => "$DAEMON"@, "DAEMON_ARGS"@ => args]
}

/// The variables of the shell that runs the command.
pub open spec fn running_variables(daemon: Seq<char>) -> Variables {
    map!["DAEMON"@ => daemon]
}

/// The words of the command that an init script starts its daemon with: the two
/// assignments are read, the here-document is filled in, and the command that
/// comes of it is read.
pub open spec fn started(script: Seq<char>) -> Option<Seq<Seq<char>>> {
    if !SCRIPT_HEAD@.is_prefix_of(script) {
        None
    } else {
        match assigned(script.skip(SCRIPT_HEAD@.len() as int)) {
            None => None,
            Some((daemon, rest)) => if !SCRIPT_MIDDLE@.is_prefix_of(rest) {
                None
            } else {
                match assigned(rest.skip(SCRIPT_MIDDLE@.len() as int)) {
                    None => None,
                    Some((args, rest)) => if rest != SCRIPT_START@ + START_COMMAND@ + SCRIPT_TAIL@ {
                        None
                    } else {
                        sh_read(
                            here_document(START_COMMAND@, writing_variables(args)),
                            running_variables(daemon),
                            Reader::start(),
                        )
                    },
                }
            },
        }
    }
}

proof fn lemma_dq_body(s: Seq<char>, vars: Variables, value: Seq<char>, rest: Seq<char>)
    ensures
        dq_read(spelled(|c: char| dq_piece(c), s) + (seq!['"'] + rest), vars, value) == Some(
            (value + s, rest),
        ),
    decreases s.len(),
{
    let piece = |c: char| dq_piece(c);
    let tail = seq!['"'] + rest;
    let all = spelled(piece, s) + tail;
    if s.len() == 0 {
        assert(all == tail);
        assert(all.skip(1) == rest);
        assert(value + s == value);
    } else {
        let c = s[0];
        let more = spelled(piece, s.drop_first()) + tail;
        assert(all == dq_piece(c) + more);
        lemma_dq_body(s.drop_first(), vars, value.push(c), rest);
        assert(value.push(c) + s.drop_first() == value + s);
        if dq_piece(c).len() == 2 {
            assert(all[0] == '\\');
            assert(all[1] == c);
            assert(all.skip(2) == more);
        } else {
            assert(all[0] == c);
            assert(all.skip(1) == more);
        }
    }
}

proof fn lemma_assigned(s: Seq<char>, rest: Seq<char>)
    ensures
        assigned(dq_quoted(s) + rest) == Some((s, rest)),
{
    let all = dq_quoted(s) + rest;
    let nothing = Seq::<char>::empty();
    assert(all[0] == '"');
    assert(all.skip(1) == spelled(|c: char| dq_piece(c), s) + (seq!['"'] + rest));
    lemma_dq_body(s, Map::empty(), nothing, rest);
    assert(nothing + s == s);
}

proof fn lemma_name_len(name: Seq<char>, rest: Seq<char>)
    requires
        forall|i: int| 0 <= i < name.len() ==> is_name_char(#[trigger] name[i]),
        rest.len() == 0 || !is_name_char(rest[0]),
    ensures
        name_len(name + rest) == name.len(),
    decreases name.len(),
{
    if name.len() == 0 {
        assert(name + rest == rest);
    } else {
        assert((name + rest).skip(1) == name.skip(1) + rest);
        lemma_name_len(name.skip(1), rest);
    }
}

proof fn lemma_here_text(s: Seq<char>, vars: Variables, rest: Seq<char>)
    requires
        forall|i: int| 0 <= i < s.len() ==> #[trigger] s[i] != '$',
    ensures
        here_document(s + rest, vars) == s + here_document(rest, vars),
    decreases s.len(),
{
    if s.len() == 0 {
        assert(s + rest == rest);
    } else {
        assert((s + rest).skip(1) == s.skip(1) + rest);
        lemma_here_text(s.skip(1), vars, rest);
        assert(seq![s[0]] + (s.skip(1) + here_document(rest, vars)) == s + here_document(
            rest,
            vars,
        ));
    }
}

proof fn lemma_here_variable(name: Seq<char>, vars: Variables, rest: Seq<char>)
    requires
        name.len() > 0,
        forall|i: int| 0 <= i < name.len() ==> is_name_char(#[trigger] name[i]),
        rest.len() == 0 || !is_name_char(rest[0]),
    ensures
        here_document(seq!['$'] + name + rest, vars) == value_of(vars, name) + here_document(
            rest,
            vars,
        ),
{
    let all = seq!['$'] + name + rest;
    assert(all.skip(1) == name + rest);
    lemma_name_len(name, rest);
    assert(all.subrange(1, 1 + name.len() as int) == name);
    assert(all.skip(1 + name.len() as int) == rest);
}

proof fn lemma_sh_plain(
    s: Seq<char>,
    vars: Variables,
    w: Seq<char>,
    words: Seq<Seq<char>>,
    rest: Seq<char>,
)
    requires
        forall|i: int| 0 <= i < s.len() ==> is_plain(#[trigger] s[i]),
    ensures
        sh_read(s + rest, vars, Reader { quoted: false, word: Some(w), words }) == sh_read(
            rest,
            vars,
            Reader { quoted: false, word: Some(w + s), words },
        ),
    decreases s.len(),
{
    if s.len() == 0 {
        assert(s + rest == rest);
        assert(w + s == w);
    } else {
        assert((s + rest).skip(1) == s.skip(1) + rest);
        lemma_sh_plain(s.skip(1), vars, w.push(s[0]), words, rest);
        assert(w.push(s[0]) + s.skip(1) == w + s);
    }
}

/// The command, with the arguments in the place of their variable.
spec fn filled_in(line: Seq<char>) -> Seq<char> {
    "setsid"@ + (seq![' ', '"'] + ("$DAEMON"@ + (seq!['"', ' '] + line)))
}

proof fn lemma_filled_in(line: Seq<char>)
    ensures
        here_document(START_COMMAND@, writing_variables(line)) == filled_in(line),
{
    reveal_strlit("setsid \"$DAEMON\" $DAEMON_ARGS");
    reveal_strlit("setsid");
    reveal_strlit("DAEMON");
    reveal_strlit("DAEMON_ARGS");
    let vars = writing_variables(line);
    let nothing = Seq::<char>::empty();
    let daemon = "DAEMON"@;
    let args = "DAEMON_ARGS"@;
    let head = "setsid"@ + seq![' ', '"'];
    let second = seq!['$'] + args + nothing;
    let third = seq!['"', ' '] + second;
    assert(START_COMMAND@ == head + (seq!['$'] + daemon + third));
    assert(daemon.len() == 6 && args.len() == 11);
    lemma_here_text(head, vars, seq!['$'] + daemon + third);
    lemma_here_variable(daemon, vars, third);
    lemma_here_text(seq!['"', ' '], vars, second);
    lemma_here_variable(args, vars, nothing);
    assert(here_document(nothing, vars) == nothing);
    assert(line + nothing == line);
}

/// A quoted variable is read as its value.
proof fn lemma_sh_variable(name: Seq<char>, vars: Variables, words: Seq<Seq<char>>, rest: Seq<char>)
    requires
        name.len() > 0,
        forall|i: int| 0 <= i < name.len() ==> is_name_char(#[trigger] name[i]),
    ensures
        sh_read(
            seq!['"', '$'] + (name + (seq!['"'] + rest)),
            vars,
            Reader { quoted: false, word: None, words },
        ) == sh_read(rest, vars, Reader { quoted: false, word: Some(value_of(vars, name)), words }),
{
    let nothing = Seq::<char>::empty();
    let tail = seq!['"'] + rest;
    let all = seq!['"', '$'] + (name + tail);
    let inside = all.skip(1);
    assert(inside.skip(1) == name + tail);
    lemma_name_len(name, tail);
    assert(inside.subrange(1, 1 + name.len() as int) == name);
    assert(inside.skip(1 + name.len() as int) == tail);
    assert(tail.skip(1) == rest);
    let value = value_of(vars, name);
    assert(nothing + value == value);
    assert(dq_read(tail, vars, value) == Some((value, rest)));
    assert(dq_read(inside, vars, nothing) == Some((value, rest)));
}

/// A word of plain characters, up to a space, is read as it is.
proof fn lemma_sh_first(word: Seq<char>, vars: Variables, rest: Seq<char>)
    requires
        word.len() > 0,
        forall|i: int| 0 <= i < word.len() ==> is_plain(#[trigger] word[i]),
    ensures
        sh_read(word + (seq![' '] + rest), vars, Reader::start()) == sh_read(
            rest,
            vars,
            Reader { quoted: false, word: None, words: seq![word] },
        ),
{
    let spaced = seq![' '] + rest;
    let none = Seq::<Seq<char>>::empty();
    let all = word + spaced;
    assert(all.skip(1) == word.skip(1) + spaced);
    assert(sh_read(all, vars, Reader::start()) == sh_read(
        all.skip(1),
        vars,
        Reader { quoted: false, word: Some(seq![word[0]]), words: none },
    ));
    lemma_sh_plain(word.skip(1), vars, seq![word[0]], none, spaced);
    assert(seq![word[0]] + word.skip(1) == word);
    assert(spaced.skip(1) == rest);
    assert(none.push(word) == seq![word]);
}

proof fn lemma_command_words(bin: Seq<char>, args: Seq<Seq<char>>)
    ensures
        sh_read(filled_in(joined(sh_words(args))), running_variables(bin), Reader::start())
            == Some(seq!["setsid"@, bin] + args),
{
    reveal_strlit("setsid");
    reveal_strlit("$DAEMON");
    reveal_strlit("DAEMON");
    let vars = running_variables(bin);
    let line = joined(sh_words(args));
    let first = "setsid"@;
    let name = "DAEMON"@;
    let last = seq![' '] + line;
    let quote = seq!['"', '$'] + (name + (seq!['"'] + last));
    assert(filled_in(line) == first + (seq![' '] + quote));
    lemma_sh_first(first, vars, quote);
    lemma_sh_variable(name, vars, seq![first], last);
    assert(last.skip(1) == line);
    assert(seq![first].push(bin) == seq![first, bin]);
    lemma_sh_round_trip(args, vars, seq![first, bin]);
}

/// The daemon is started with its arguments as they were given, whatever they
/// and the path of its binary hold.
pub proof fn lemma_script_starts(bin: Seq<char>, args: Seq<Seq<char>>)
    ensures
        started(script_of(bin, args)) == Some(seq!["setsid"@, bin] + args),
{
    let script = script_of(bin, args);
    let line = joined(sh_words(args));
    let end = SCRIPT_START@ + START_COMMAND@ + SCRIPT_TAIL@;
    let middle = SCRIPT_MIDDLE@ + (dq_quoted(line) + end);
    assert(script.skip(SCRIPT_HEAD@.len() as int) == dq_quoted(bin) + middle);
    assert(SCRIPT_HEAD@.is_prefix_of(script));
    lemma_assigned(bin, middle);
    assert(middle.skip(SCRIPT_MIDDLE@.len() as int) == dq_quoted(line) + end);
    assert(SCRIPT_MIDDLE@.is_prefix_of(middle));
    lemma_assigned(line, end);
    lemma_filled_in(line);
    lemma_command_words(bin, args);
}

// ---------------------------------------------------------------------------
// The machine
// ---------------------------------------------------------------------------

pub const UID_LABEL: &'static str = "Uid:";

/// The first line of a status text that holds the user IDs, if any.
pub open spec fn uid_line(status: Seq<char>) -> Option<Seq<char>>
    decreases status.len(),
{
    proof {
        text::lemma_find_first(status, '\n');
    }
    if status.len() == 0 {
        None
    } else if UID_LABEL@.is_prefix_of(text::first_line(status)) {
        Some(text::first_line(status))
    } else {
        uid_line(text::after_line(status))
    }
}

/// Whether a status text is that of a process of the superuser: the second word
/// of the line with the user IDs is zero.
pub open spec fn root_status(status: Seq<char>) -> bool {
    match uid_line(status) {
        Some(line) => text::decimal_up_to(
            text::first_word(text::after_word(line)),
            u32::MAX as nat,
        ) == Some(0nat),
        None => false,
    }
}

/// Tells from the status text of the process whether it is the superuser's; not
/// when the text could not be read.
pub fn is_root(status: Option<&str>) -> (r: bool)
    ensures
        r == (status matches Some(s) && root_status(s@)),
{
    let whole = match status {
        Some(s) => s,
        None => return false,
    };
    let mut rest: &str = whole;
    while rest.unicode_len() > 0
        invariant
            status == Some(whole),
            uid_line(rest@) == uid_line(whole@),
        decreases rest@.len(),
    {
        proof {
            text::lemma_find_first(rest@, '\n');
        }
        let (line, after) = text::next_line(rest);
        if text::strip_prefix(line, UID_LABEL).is_some() {
            let (_, words) = text::next_word(line);
            let (uid, _) = text::next_word(words);
            return match text::parse_decimal(uid, u32::MAX as u64) {
                Some(n) => n == 0,
                None => false,
            };
        }
        rest = after;
    }
    false
}

/// The init systems that are supported.
#[derive(Debug, Clone, Copy, PartialEq, Eq, Structural)]
pub enum InitSystem {
    Systemd,
    OpenRc,
    SysV,
}

pub const NOT_ROOT: &'static str =
    "This command must be run as root (e.g. `sudo auto-server service ...`).";

pub const NO_INIT_SYSTEM: &'static str =
    "Could not detect a supported init system (systemd, OpenRC, or SysV init).";

pub const NO_ENABLE_TOOL: &'static str =
    "Could not find `update-rc.d` or `chkconfig` to enable the service.";

/// Why a service command cannot be carried out.
#[derive(Debug, Clone, Copy, PartialEq, Eq, Structural)]
pub enum ServiceError {
    NotRoot,
    NoInitSystem,
    /// Neither tool to enable a SysV service is there.
    NoEnableTool,
}

impl ServiceError {
    /// The message that the user sees.
    pub open spec fn spec_message(self) -> Seq<char> {
        match self {
            ServiceError::NotRoot => NOT_ROOT@,
            ServiceError::NoInitSystem => NO_INIT_SYSTEM@,
            ServiceError::NoEnableTool => NO_ENABLE_TOOL@,
        }
    }

    /// The message that the user sees.
    pub fn message(&self) -> (r: String)
        ensures
            r@ == self.spec_message(),
    {
        match self {
            ServiceError::NotRoot => NOT_ROOT.to_string(),
            ServiceError::NoInitSystem => NO_INIT_SYSTEM.to_string(),
            ServiceError::NoEnableTool => NO_ENABLE_TOOL.to_string(),
        }
    }
}

/// What there is on the machine.
#[derive(Debug)]
pub struct Machine {
    /// Whether the process is the superuser's.
    pub root: bool,
    /// Whether `/run/systemd/system` exists.
    pub systemd: bool,
    /// Whether `rc-update` is on the path, or `/sbin/openrc` exists.
    pub openrc: bool,
    /// Whether `/etc/init.d` is a directory.
    pub init_d: bool,
    /// Whether `update-rc.d` is on the path.
    pub update_rc_d: bool,
    /// Whether `chkconfig` is on the path.
    pub chkconfig: bool,
    /// The path of the running binary.
    pub binary: String,
}

/// Refuses everybody but the superuser.
pub fn ensure_root(machine: &Machine) -> (r: Result<(), ServiceError>)
    ensures
        r == (if machine.root {
            Ok::<(), ServiceError>(())
        } else {
            Err(ServiceError::NotRoot)
        }),
{
    if !machine.root {
        return Err(ServiceError::NotRoot);
    }
    Ok(())
}

/// The init system of a machine: the first of them that is there.
pub open spec fn init_of(machine: Machine) -> Option<InitSystem> {
    if machine.systemd {
        Some(InitSystem::Systemd)
    } else if machine.openrc {
        Some(InitSystem::OpenRc)
    } else if machine.init_d {
        Some(InitSystem::SysV)
    } else {
        None
    }
}

/// Tells the init system of a machine.
pub fn detect_init(machine: &Machine) -> (r: Result<InitSystem, ServiceError>)
    ensures
        match init_of(*machine) {
            Some(init) => r == Ok::<InitSystem, ServiceError>(init),
            None => r == Err::<InitSystem, ServiceError>(ServiceError::NoInitSystem),
        },
{
    if machine.systemd {
        return Ok(InitSystem::Systemd);
    }
    if machine.openrc {
        return Ok(InitSystem::OpenRc);
    }
    if machine.init_d {
        return Ok(InitSystem::SysV);
    }
    Err(ServiceError::NoInitSystem)
}

// ---------------------------------------------------------------------------
// Plans
// ---------------------------------------------------------------------------

/// One step of a service command. Steps are carried out in order; the first
/// that fails ends the command.
#[derive(Debug)]
pub enum Step {
    /// Copy the running binary there and make it executable.
    CopyBinary(String),
    /// Write a file with these permissions.
    WriteFile { path: &'static str, content: String, mode: u32 },
    /// Run a program, which has to succeed.
    Run { program: &'static str, args: Vec<String> },
    /// Run a program, whether it succeeds or not.
    Attempt { program: &'static str, args: Vec<String> },
    /// Remove a file if it is there.
    RemoveFile(&'static str),
    /// Tell the user.
    Say(String),
    /// Give up.
    Fail(ServiceError),
}

/// What a [`Step`] denotes.
#[verifier::ext_equal]
pub enum StepView {
    CopyBinary(Seq<char>),
    WriteFile { path: Seq<char>, content: Seq<char>, mode: u32 },
    Run { program: Seq<char>, args: Seq<Seq<char>> },
    Attempt { program: Seq<char>, args: Seq<Seq<char>> },
    RemoveFile(Seq<char>),
    Say(Seq<char>),
    Fail(ServiceError),
}

impl View for Step {
    type V = StepView;

    open spec fn view(&self) -> StepView {
        match self {
            Step::CopyBinary(dest) => StepView::CopyBinary(dest@),
            Step::WriteFile { path, content, mode } => StepView::WriteFile {
                path: path@,
                content: content@,
                mode: *mode,
            },
            Step::Run { program, args } => StepView::Run {
                program: program@,
                args: text::views(args@),
            },
            Step::Attempt { program, args } => StepView::Attempt {
                program: program@,
                args: text::views(args@),
            },
            Step::RemoveFile(path) => StepView::RemoveFile(path@),
            Step::Say(message) => StepView::Say(message@),
            Step::Fail(e) => StepView::Fail(*e),
        }
    }
}

/// What a list of steps denotes.
pub open spec fn step_views(v: Seq<Step>) -> Seq<StepView> {
    v.map_values(|s: Step| s@)
}

/// What the parts of the plans denote: a program that has to succeed.
pub open spec fn runs(program: Seq<char>, args: Seq<Seq<char>>) -> StepView {
    StepView::Run { program, args }
}

/// A program that need not succeed.
pub open spec fn attempts(program: Seq<char>, args: Seq<Seq<char>>) -> StepView {
    StepView::Attempt { program, args }
}

fn run_step(program: &'static str, args: &[&str]) -> (r: Step)
    ensures
        r@ == runs(program@, text::str_views(args@)),
{
    Step::Run { program, args: text::to_strings(args) }
}

fn attempt_step(program: &'static str, args: &[&str]) -> (r: Step)
    ensures
        r@ == attempts(program@, text::str_views(args@)),
{
    Step::Attempt { program, args: text::to_strings(args) }
}

fn say(message: &str) -> (r: Step)
    ensures
        r@ == StepView::Say(message@),
{
    Step::Say(message.to_string())
}

fn say_two(a: &str, b: &str) -> (r: Step)
    ensures
        r@ == StepView::Say(a@ + b@),
{
    Step::Say(text::concat_two(a, b))
}

pub const NEXT_STEPS: &'static str =
    "Next: `auto-server service enable` then `auto-server service start`";

/// The binary that a service runs: where it was copied to, or where it is.
pub open spec fn service_binary(bin_path: Option<String>, machine: Machine) -> Seq<char> {
    match bin_path {
        Some(dest) => dest@,
        None => machine.binary@,
    }
}

/// The steps that install the service under an init system.
pub open spec fn install_under(
    init: InitSystem,
    bin: Seq<char>,
    args: Seq<Seq<char>>,
) -> Seq<StepView> {
    match init {
        InitSystem::Systemd => seq![
            StepView::WriteFile {
                path: SYSTEMD_UNIT_PATH@,
                content: unit_of(bin, args),
                mode: 0o644,
            },
            runs("systemctl"@, seq!["daemon-reload"@]),
            StepView::Say("Installed systemd unit at "@ + SYSTEMD_UNIT_PATH@),
            StepView::Say("ExecStart uses binary: "@ + bin),
        ] + (if args.len() == 0 {
            seq![StepView::Say(NEXT_STEPS@)]
        } else {
            seq![
                StepView::Say("Forwarded args: "@ + joined(args)),
                StepView::Say(NEXT_STEPS@),
            ]
        }),
        InitSystem::OpenRc => seq![
            StepView::WriteFile {
                path: SYSV_SCRIPT_PATH@,
                content: script_of(bin, args),
                mode: 0o755,
            },
            StepView::Say("Installed OpenRC init script at "@ + SYSV_SCRIPT_PATH@),
            StepView::Say("DAEMON uses binary: "@ + bin),
        ],
        InitSystem::SysV => seq![
            StepView::WriteFile {
                path: SYSV_SCRIPT_PATH@,
                content: script_of(bin, args),
                mode: 0o755,
            },
            StepView::Say("Installed SysV init script at "@ + SYSV_SCRIPT_PATH@),
            StepView::Say("DAEMON uses binary: "@ + bin),
        ],
    }
}

/// The steps that install the service.
pub open spec fn install_plan(
    bin_path: Option<String>,
    args: Seq<Seq<char>>,
    machine: Machine,
) -> Seq<StepView> {
    let first = match bin_path {
        Some(dest) => seq![StepView::CopyBinary(dest@)],
        None => Seq::<StepView>::empty(),
    };
    first + (match init_of(machine) {
        Some(init) => install_under(init, service_binary(bin_path, machine), args),
        None => seq![StepView::Fail(ServiceError::NoInitSystem)],
    })
}

/// Plans the installation of the service.
fn install(args: &Vec<String>, bin_path: &Option<String>, machine: &Machine) -> (r: Vec<Step>)
    ensures
        step_views(r@) == install_plan(*bin_path, text::views(args@), *machine),
{
    let mut out: Vec<Step> = Vec::new();
    let bin: &str = match bin_path {
        Some(dest) => {
            out.push(Step::CopyBinary(dest.as_str().to_string()));
            dest.as_str()
        },
        None => machine.binary.as_str(),
    };
    match detect_init(machine) {
        Ok(InitSystem::Systemd) => {
            out.push(
                Step::WriteFile {
                    path: SYSTEMD_UNIT_PATH,
                    content: systemd_unit(bin, args),
                    mode: 0o644,
                },
            );
            let reload: [&str; 1] = ["daemon-reload"];
            assert(text::str_views(reload@) == seq!["daemon-reload"@]);
            out.push(run_step("systemctl", reload.as_slice()));
            out.push(say_two("Installed systemd unit at ", SYSTEMD_UNIT_PATH));
            out.push(say_two("ExecStart uses binary: ", bin));
            if args.len() > 0 {
                let forwarded = join_words(args);
                out.push(say_two("Forwarded args: ", forwarded.as_str()));
            }
            out.push(say(NEXT_STEPS));
        },
        Ok(InitSystem::OpenRc) => {
            out.push(
                Step::WriteFile {
                    path: SYSV_SCRIPT_PATH,
                    content: init_script(bin, args),
                    mode: 0o755,
                },
            );
            out.push(say_two("Installed OpenRC init script at ", SYSV_SCRIPT_PATH));
            out.push(say_two("DAEMON uses binary: ", bin));
        },
        Ok(InitSystem::SysV) => {
            out.push(
                Step::WriteFile {
                    path: SYSV_SCRIPT_PATH,
                    content: init_script(bin, args),
                    mode: 0o755,
                },
            );
            out.push(say_two("Installed SysV init script at ", SYSV_SCRIPT_PATH));
            out.push(say_two("DAEMON uses binary: ", bin));
        },
        Err(e) => {
            out.push(Step::Fail(e));
        },
    }
    assert(step_views(out@) == install_plan(*bin_path, text::views(args@), *machine));
    out
}

/// The steps that make the service start at boot.
pub open spec fn enable_plan(machine: Machine) -> Seq<StepView> {
    match init_of(machine) {
        None => seq![StepView::Fail(ServiceError::NoInitSystem)],
        Some(InitSystem::Systemd) => seq![
            runs("systemctl"@, seq!["enable"@, SERVICE_NAME@]),
            StepView::Say("Enabled auto-server (starts at boot)"@),
        ],
        Some(InitSystem::OpenRc) => seq![
            runs("rc-update"@, seq!["add"@, SERVICE_NAME@, "default"@]),
            StepView::Say("Enabled auto-server (rc-update add default)"@),
        ],
        Some(InitSystem::SysV) => if machine.update_rc_d {
            seq![
                runs("update-rc.d"@, seq![SERVICE_NAME@, "defaults"@]),
                StepView::Say("Enabled auto-server"@),
            ]
        } else if machine.chkconfig {
            seq![
                runs("chkconfig"@, seq!["--add"@, SERVICE_NAME@]),
                runs("chkconfig"@, seq![SERVICE_NAME@, "on"@]),
                StepView::Say("Enabled auto-server"@),
            ]
        } else {
            seq![StepView::Fail(ServiceError::NoEnableTool)]
        },
    }
}

/// Plans to make the service start at boot.
fn enable(machine: &Machine) -> (r: Vec<Step>)
    ensures
        step_views(r@) == enable_plan(*machine),
{
    let mut out: Vec<Step> = Vec::new();
    match detect_init(machine) {
        Ok(InitSystem::Systemd) => {
            let args: [&str; 2] = ["enable", SERVICE_NAME];
            assert(text::str_views(args@) == seq!["enable"@, SERVICE_NAME@]);
            out.push(run_step("systemctl", args.as_slice()));
            out.push(say("Enabled auto-server (starts at boot)"));
        },
        Ok(InitSystem::OpenRc) => {
            let args: [&str; 3] = ["add", SERVICE_NAME, "default"];
            assert(text::str_views(args@) == seq!["add"@, SERVICE_NAME@, "default"@]);
            out.push(run_step("rc-update", args.as_slice()));
            out.push(say("Enabled auto-server (rc-update add default)"));
        },
        Ok(InitSystem::SysV) => {
            if machine.update_rc_d {
                let args: [&str; 2] = [SERVICE_NAME, "defaults"];
                assert(text::str_views(args@) == seq![SERVICE_NAME@, "defaults"@]);
                out.push(run_step("update-rc.d", args.as_slice()));
                out.push(say("Enabled auto-server"));
            } else if machine.chkconfig {
                let add: [&str; 2] = ["--add", SERVICE_NAME];
                let on: [&str; 2] = [SERVICE_NAME, "on"];
                assert(text::str_views(add@) == seq!["--add"@, SERVICE_NAME@]);
                assert(text::str_views(on@) == seq![SERVICE_NAME@, "on"@]);
                out.push(run_step("chkconfig", add.as_slice()));
                out.push(run_step("chkconfig", on.as_slice()));
                out.push(say("Enabled auto-server"));
            } else {
                out.push(Step::Fail(ServiceError::NoEnableTool));
            }
        },
        Err(e) => {
            out.push(Step::Fail(e));
        },
    }
    assert(step_views(out@) == enable_plan(*machine));
    out
}

/// The step that hands a verb to the service manager.
pub open spec fn control_step(init: InitSystem, verb: Seq<char>) -> StepView {
    match init {
        InitSystem::Systemd => runs("systemctl"@, seq![verb, SERVICE_NAME@]),
        InitSystem::OpenRc => runs("rc-service"@, seq![SERVICE_NAME@, verb]),
        InitSystem::SysV => runs("service"@, seq![SERVICE_NAME@, verb]),
    }
}

/// The steps that start or stop the service.
pub open spec fn control_plan(
    machine: Machine,
    verb: Seq<char>,
    message: Seq<char>,
) -> Seq<StepView> {
    match init_of(machine) {
        None => seq![StepView::Fail(ServiceError::NoInitSystem)],
        Some(init) => seq![control_step(init, verb), StepView::Say(message)],
    }
}

/// Plans to start or stop the service.
fn control(machine: &Machine, verb: &str, message: &str) -> (r: Vec<Step>)
    ensures
        step_views(r@) == control_plan(*machine, verb@, message@),
{
    let mut out: Vec<Step> = Vec::new();
    let first: [&str; 2] = [verb, SERVICE_NAME];
    let last: [&str; 2] = [SERVICE_NAME, verb];
    assert(text::str_views(first@) == seq![verb@, SERVICE_NAME@]);
    assert(text::str_views(last@) == seq![SERVICE_NAME@, verb@]);
    match detect_init(machine) {
        Ok(InitSystem::Systemd) => {
            out.push(run_step("systemctl", first.as_slice()));
            out.push(say(message));
        },
        Ok(InitSystem::OpenRc) => {
            out.push(run_step("rc-service", last.as_slice()));
            out.push(say(message));
        },
        Ok(InitSystem::SysV) => {
            out.push(run_step("service", last.as_slice()));
            out.push(say(message));
        },
        Err(e) => {
            out.push(Step::Fail(e));
        },
    }
    assert(step_views(out@) == control_plan(*machine, verb@, message@));
    out
}

/// The steps that remove the service.
pub open spec fn uninstall_plan(machine: Machine) -> Seq<StepView> {
    match init_of(machine) {
        None => seq![StepView::Fail(ServiceError::NoInitSystem)],
        Some(InitSystem::Systemd) => seq![
            attempts("systemctl"@, seq!["stop"@, SERVICE_NAME@]),
            attempts("systemctl"@, seq!["disable"@, SERVICE_NAME@]),
            StepView::RemoveFile(SYSTEMD_UNIT_PATH@),
            runs("systemctl"@, seq!["daemon-reload"@]),
            StepView::Say("Removed systemd unit at "@ + SYSTEMD_UNIT_PATH@),
        ],
        Some(InitSystem::OpenRc) => seq![
            attempts("rc-service"@, seq![SERVICE_NAME@, "stop"@]),
            attempts("rc-update"@, seq!["del"@, SERVICE_NAME@]),
            StepView::RemoveFile(SYSV_SCRIPT_PATH@),
            StepView::Say("Removed OpenRC init script at "@ + SYSV_SCRIPT_PATH@),
        ],
        Some(InitSystem::SysV) => seq![attempts("service"@, seq![SERVICE_NAME@, "stop"@])]
            + (if machine.update_rc_d {
            seq![attempts("update-rc.d"@, seq!["-f"@, SERVICE_NAME@, "remove"@])]
        } else if machine.chkconfig {
            seq![
                attempts("chkconfig"@, seq![SERVICE_NAME@, "off"@]),
                attempts("chkconfig"@, seq!["--del"@, SERVICE_NAME@]),
            ]
        } else {
            Seq::<StepView>::empty()
        }) + seq![
            StepView::RemoveFile(SYSV_SCRIPT_PATH@),
            StepView::Say("Removed SysV init script at "@ + SYSV_SCRIPT_PATH@),
        ],
    }
}

/// Plans the removal of the service.
fn uninstall(machine: &Machine) -> (r: Vec<Step>)
    ensures
        step_views(r@) == uninstall_plan(*machine),
{
    let mut out: Vec<Step> = Vec::new();
    match detect_init(machine) {
        Ok(InitSystem::Systemd) => {
            let stop: [&str; 2] = ["stop", SERVICE_NAME];
            let disable: [&str; 2] = ["disable", SERVICE_NAME];
            let reload: [&str; 1] = ["daemon-reload"];
            assert(text::str_views(stop@) == seq!["stop"@, SERVICE_NAME@]);
            assert(text::str_views(disable@) == seq!["disable"@, SERVICE_NAME@]);
            assert(text::str_views(reload@) == seq!["daemon-reload"@]);
            out.push(attempt_step("systemctl", stop.as_slice()));
            out.push(attempt_step("systemctl", disable.as_slice()));
            out.push(Step::RemoveFile(SYSTEMD_UNIT_PATH));
            out.push(run_step("systemctl", reload.as_slice()));
            out.push(say_two("Removed systemd unit at ", SYSTEMD_UNIT_PATH));
        },
        Ok(InitSystem::OpenRc) => {
            let stop: [&str; 2] = [SERVICE_NAME, "stop"];
            let del: [&str; 2] = ["del", SERVICE_NAME];
            assert(text::str_views(stop@) == seq![SERVICE_NAME@, "stop"@]);
            assert(text::str_views(del@) == seq!["del"@, SERVICE_NAME@]);
            out.push(attempt_step("rc-service", stop.as_slice()));
            out.push(attempt_step("rc-update", del.as_slice()));
            out.push(Step::RemoveFile(SYSV_SCRIPT_PATH));
            out.push(say_two("Removed OpenRC init script at ", SYSV_SCRIPT_PATH));
        },
        Ok(InitSystem::SysV) => {
            let stop: [&str; 2] = [SERVICE_NAME, "stop"];
            assert(text::str_views(stop@) == seq![SERVICE_NAME@, "stop"@]);
            out.push(attempt_step("service", stop.as_slice()));
            if machine.update_rc_d {
                let remove: [&str; 3] = ["-f", SERVICE_NAME, "remove"];
                assert(text::str_views(remove@) == seq!["-f"@, SERVICE_NAME@, "remove"@]);
                out.push(attempt_step("update-rc.d", remove.as_slice()));
            } else if machine.chkconfig {
                let off: [&str; 2] = [SERVICE_NAME, "off"];
                let del: [&str; 2] = ["--del", SERVICE_NAME];
                assert(text::str_views(off@) == seq![SERVICE_NAME@, "off"@]);
                assert(text::str_views(del@) == seq!["--del"@, SERVICE_NAME@]);
                out.push(attempt_step("chkconfig", off.as_slice()));
                out.push(attempt_step("chkconfig", del.as_slice()));
            }
            out.push(Step::RemoveFile(SYSV_SCRIPT_PATH));
            out.push(say_two("Removed SysV init script at ", SYSV_SCRIPT_PATH));
        },
        Err(e) => {
            out.push(Step::Fail(e));
        },
    }
    assert(step_views(out@) == uninstall_plan(*machine));
    out
}

/// The steps of a service command.
pub open spec fn plan_of(cmd: ServiceAction, machine: Machine) -> Seq<StepView> {
    match cmd {
        ServiceAction::Install { bin_path, args } => install_plan(
            bin_path,
            text::views(args@),
            machine,
        ),
        ServiceAction::Enable => enable_plan(machine),
        ServiceAction::Start => control_plan(machine, "start"@, "Started auto-server"@),
        ServiceAction::Stop => control_plan(machine, "stop"@, "Stopped auto-server"@),
        ServiceAction::Uninstall => uninstall_plan(machine),
    }
}

/// Plans a service command. Everybody but the superuser is refused.
pub fn run(cmd: ServiceAction, machine: &Machine) -> (r: Result<Vec<Step>, ServiceError>)
    ensures
        if machine.root {
            r matches Ok(steps) && step_views(steps@) == plan_of(cmd, *machine)
        } else {
            r == Err::<Vec<Step>, ServiceError>(ServiceError::NotRoot)
        },
{
    if let Err(e) = ensure_root(machine) {
        return Err(e);
    }
    let steps = match cmd {
        ServiceAction::Install { bin_path, args } => install(&args, &bin_path, machine),
        ServiceAction::Enable => enable(machine),
        ServiceAction::Start => control(machine, "start", "Started auto-server"),
        ServiceAction::Stop => control(machine, "stop", "Stopped auto-server"),
        ServiceAction::Uninstall => uninstall(machine),
    };
    Ok(steps)
}

/// The file that an init system starts the service from.
pub open spec fn service_file(init: InitSystem) -> Seq<char> {
    match init {
        InitSystem::Systemd => SYSTEMD_UNIT_PATH@,
        InitSystem::OpenRc => SYSV_SCRIPT_PATH@,
        InitSystem::SysV => SYSV_SCRIPT_PATH@,
    }
}

/// Whether a step creates a file at a path.
pub open spec fn creates(step: StepView, path: Seq<char>) -> bool {
    step matches StepView::WriteFile { path: p, .. } && p == path
}

/// What an installation writes for the init system, a removal removes: the one
/// file of that init system.
pub proof fn lemma_uninstall_removes(
    bin_path: Option<String>,
    args: Seq<Seq<char>>,
    machine: Machine,
    init: InitSystem,
)
    requires
        init_of(machine) == Some(init),
    ensures
        exists|i: int|
            0 <= i < install_plan(bin_path, args, machine).len() && creates(
                #[trigger] install_plan(bin_path, args, machine)[i],
                service_file(init),
            ),
        forall|i: int, path: Seq<char>|
            0 <= i < install_plan(bin_path, args, machine).len() && #[trigger] creates(
                install_plan(bin_path, args, machine)[i],
                path,
            ) ==> path == service_file(init),
        uninstall_plan(machine).contains(StepView::RemoveFile(service_file(init))),
{
    let plan = install_plan(bin_path, args, machine);
    let k: int = if bin_path is Some {
        1
    } else {
        0
    };
    let part = install_under(init, service_binary(bin_path, machine), args);
    assert(plan[k] == part[0]);
    assert(creates(plan[k], service_file(init)));
    assert forall|i: int, path: Seq<char>|
        0 <= i < plan.len() && #[trigger] creates(plan[i], path) implies path == service_file(
        init,
    ) by {
        if i >= k {
            assert(plan[i] == part[i - k]);
        }
    }
    let removal = uninstall_plan(machine);
    let m: int = match init {
        InitSystem::Systemd => 2,
        InitSystem::OpenRc => 2,
        InitSystem::SysV => removal.len() - 2,
    };
    assert(removal[m] == StepView::RemoveFile(service_file(init)));
}

/// Where an init system is there, the first of systemd, OpenRC and SysV counts;
/// without any there is none.
pub proof fn lemma_init_order(machine: Machine)
    ensures
        init_of(machine) == Some(InitSystem::Systemd) <==> machine.systemd,
        init_of(machine) == Some(InitSystem::OpenRc) <==> !machine.systemd && machine.openrc,
        init_of(machine) == Some(InitSystem::SysV) <==> !machine.systemd && !machine.openrc
            && machine.init_d,
        init_of(machine) is None <==> !machine.systemd && !machine.openrc && !machine.init_d,
{
}

/// Inside double quotes, a quote and a backslash have a backslash in front and
/// nothing else has; inside those of a shell, so have a dollar and a backquote.
/// Inside single quotes, only a single quote is spelled otherwise.
pub proof fn lemma_pieces(c: char)
    ensures
        c == '"' || c == '\\' ==> systemd_piece(c) == seq!['\\', c],
        c != '"' && c != '\\' ==> systemd_piece(c) == seq![c],
        c == '"' || c == '\\' || c == '$' || c == '`' ==> dq_piece(c) == seq!['\\', c],
        c != '"' && c != '\\' && c != '$' && c != '`' ==> dq_piece(c) == seq![c],
        c == '\'' ==> sh_piece(c) == seq!['\'', '\\', '\'', '\''],
        c != '\'' ==> sh_piece(c) == seq![c],
{
}

/// The unit file, line by line: only the command line depends on anything, and
/// the service is restarted when it fails.
pub proof fn lemma_unit_text(bin: Seq<char>, args: Seq<Seq<char>>)
    ensures
        unit_of(bin, args) == "[Unit]
Description=auto-server SOCKS + HTTP CONNECT proxy
After=network-online.target
Wants=network-online.target

[Service]
Type=simple
ExecStart="@ + exec_line(bin, args) + "
Restart=on-failure
RestartSec=5

[Install]
WantedBy=multi-user.target
"@,
{
}

/// A process is the superuser's exactly when its first user ID is zero: a line in
/// front that does not begin with `Uid:` does not matter, nor does what follows
/// the number.
pub proof fn lemma_root(line: Seq<char>, gap: Seq<char>, uid: u32, more: Seq<char>, rest: Seq<char>)
    requires
        !line.contains('\n'),
        !"Uid:"@.is_prefix_of(line),
        text::all_space(gap),
        gap.len() > 0,
        !gap.contains('\n'),
        more.len() == 0 || text::is_space(more[0]),
        !more.contains('\n'),
    ensures
        ({
            let uids = "Uid:"@ + gap + text::decimal_digits(uid as nat) + more;
            root_status(uids + seq!['\r', '\n'] + rest) <==> uid == 0
        }),
        root_status(line + seq!['\r', '\n'] + rest) == root_status(rest),
        !root_status(Seq::<char>::empty()),
{
    reveal_strlit("Uid:");
    let label = "Uid:"@;
    let digits = text::decimal_digits(uid as nat);
    text::lemma_decimal_round_trip(uid as nat);
    let uids = label + gap + digits + more;
    assert forall|i: int| 0 <= i < digits.len() implies !text::is_space(#[trigger] digits[i]) by {
        assert(text::is_digit(digits[i]));
    }
    assert forall|i: int| 0 <= i < uids.len() implies uids[i] != '\n' by {
        if 4 <= i < 4 + gap.len() {
            assert(gap.contains(gap[i - 4]));
        } else if 4 + gap.len() <= i < 4 + gap.len() + digits.len() {
            assert(text::is_digit(digits[i - 4 - gap.len()]));
        } else if i >= 4 + gap.len() + digits.len() {
            assert(more.contains(more[i - 4 - gap.len() - digits.len()]));
        }
    }
    assert(!uids.contains('\n'));
    text::lemma_line(uids, rest);
    text::lemma_line(line, rest);
    assert(uids.take(4) == label);
    assert(label.is_prefix_of(uids));
    let nothing = Seq::<char>::empty();
    let tail = gap + digits + more;
    assert(uids == nothing + label + tail);
    text::lemma_word(nothing, label, tail);
    text::lemma_word(gap, digits, more);
}

/// Starting and stopping, word by word.
pub proof fn lemma_control_words(machine: Machine)
    ensures
        machine.systemd ==> {
            &&& plan_of(ServiceAction::Start, machine) == seq![
                (StepView::Run { program: "systemctl"@, args: seq!["start"@, "auto-server"@] }),
                StepView::Say("Started auto-server"@),
            ]
            &&& plan_of(ServiceAction::Stop, machine) == seq![
                (StepView::Run { program: "systemctl"@, args: seq!["stop"@, "auto-server"@] }),
                StepView::Say("Stopped auto-server"@),
            ]
        },
        !machine.systemd && machine.openrc ==> {
            &&& plan_of(ServiceAction::Start, machine) == seq![
                (StepView::Run { program: "rc-service"@, args: seq!["auto-server"@, "start"@] }),
                StepView::Say("Started auto-server"@),
            ]
            &&& plan_of(ServiceAction::Stop, machine) == seq![
                (StepView::Run { program: "rc-service"@, args: seq!["auto-server"@, "stop"@] }),
                StepView::Say("Stopped auto-server"@),
            ]
        },
        !machine.systemd && !machine.openrc && machine.init_d ==> {
            &&& plan_of(ServiceAction::Start, machine) == seq![
                (StepView::Run { program: "service"@, args: seq!["auto-server"@, "start"@] }),
                StepView::Say("Started auto-server"@),
            ]
            &&& plan_of(ServiceAction::Stop, machine) == seq![
                (StepView::Run { program: "service"@, args: seq!["auto-server"@, "stop"@] }),
                StepView::Say("Stopped auto-server"@),
            ]
        },
{
}

/// Without an init system every service command gives up; installing with a
/// destination copies the binary there before that.
pub proof fn lemma_no_init(machine: Machine, dest: String, args: Seq<Seq<char>>)
    requires
        !machine.systemd,
        !machine.openrc,
        !machine.init_d,
    ensures
        ({
            let fail = StepView::Fail(ServiceError::NoInitSystem);
            &&& plan_of(ServiceAction::Enable, machine) == seq![fail]
            &&& plan_of(ServiceAction::Start, machine) == seq![fail]
            &&& plan_of(ServiceAction::Stop, machine) == seq![fail]
            &&& plan_of(ServiceAction::Uninstall, machine) == seq![fail]
            &&& install_plan(None, args, machine) == seq![fail]
            &&& install_plan(Some(dest), args, machine) == seq![StepView::CopyBinary(dest@), fail]
        }),
{
}

/// An installation writes the service file with its permissions, for the binary
/// where it was copied to or where it is, and with exactly the arguments that
/// were given; it copies first, and reloads systemd right behind its unit file.
pub proof fn lemma_install_steps(machine: Machine, dest: String, args: Seq<Seq<char>>)
    ensures
        machine.systemd ==> {
            let plain = install_plan(None, args, machine);
            let copied = install_plan(Some(dest), args, machine);
            let reload = StepView::Run { program: "systemctl"@, args: seq!["daemon-reload"@] };
            &&& plain.len() >= 2 && copied.len() >= 3
            &&& plain[0] == (StepView::WriteFile {
                path: "/etc/systemd/system/auto-server.service"@,
                content: unit_of(machine.binary@, args),
                mode: 420,
            })
            &&& plain[1] == reload
            &&& copied[0] == StepView::CopyBinary(dest@)
            &&& copied[1] == (StepView::WriteFile {
                path: "/etc/systemd/system/auto-server.service"@,
                content: unit_of(dest@, args),
                mode: 420,
            })
            &&& copied[2] == reload
            &&& plain.last() == StepView::Say(
                "Next: `auto-server service enable` then `auto-server service start`"@,
            )
        },
        !machine.systemd && (machine.openrc || machine.init_d) ==> {
            let plain = install_plan(None, args, machine);
            let copied = install_plan(Some(dest), args, machine);
            &&& plain.len() >= 1 && copied.len() >= 2
            &&& plain[0] == (StepView::WriteFile {
                path: "/etc/init.d/auto-server"@,
                content: script_of(machine.binary@, args),
                mode: 493,
            })
            &&& copied[0] == StepView::CopyBinary(dest@)
            &&& copied[1] == (StepView::WriteFile {
                path: "/etc/init.d/auto-server"@,
                content: script_of(dest@, args),
                mode: 493,
            })
        },
{
}

/// Starting at boot, word by word: the tool of the init system, and under SysV
/// the first of the two tools that is there.
pub proof fn lemma_enable_words(machine: Machine)
    ensures
        ({
            let plan = plan_of(ServiceAction::Enable, machine);
            let sysv = !machine.systemd && !machine.openrc && machine.init_d;
            &&& machine.systemd ==> plan == seq![
                (StepView::Run { program: "systemctl"@, args: seq!["enable"@, "auto-server"@] }),
                StepView::Say("Enabled auto-server (starts at boot)"@),
            ]
            &&& !machine.systemd && machine.openrc ==> plan == seq![
                (StepView::Run {
                    program: "rc-update"@,
                    args: seq!["add"@, "auto-server"@, "default"@],
                }),
                StepView::Say("Enabled auto-server (rc-update add default)"@),
            ]
            &&& sysv && machine.update_rc_d ==> plan == seq![
                (StepView::Run {
                    program: "update-rc.d"@,
                    args: seq!["auto-server"@, "defaults"@],
                }),
                StepView::Say("Enabled auto-server"@),
            ]
            &&& sysv && !machine.update_rc_d && machine.chkconfig ==> plan == seq![
                (StepView::Run { program: "chkconfig"@, args: seq!["--add"@, "auto-server"@] }),
                (StepView::Run { program: "chkconfig"@, args: seq!["auto-server"@, "on"@] }),
                StepView::Say("Enabled auto-server"@),
            ]
            &&& sysv && !machine.update_rc_d && !machine.chkconfig ==> plan == seq![
                StepView::Fail(ServiceError::NoEnableTool),
            ]
        }),
{
}

/// A removal stops and disables the service, whether that succeeds or not, before
/// it removes the file, and reloads systemd after that.
pub proof fn lemma_uninstall_words(machine: Machine)
    ensures
        ({
            let plan = plan_of(ServiceAction::Uninstall, machine);
            let sysv = !machine.systemd && !machine.openrc && machine.init_d;
            let unit = StepView::RemoveFile("/etc/systemd/system/auto-server.service"@);
            let script = StepView::RemoveFile("/etc/init.d/auto-server"@);
            let stop = StepView::Attempt {
                program: "service"@,
                args: seq!["auto-server"@, "stop"@],
            };
            &&& machine.systemd ==> plan.len() == 5 && plan.take(4) == seq![
                (StepView::Attempt { program: "systemctl"@, args: seq!["stop"@, "auto-server"@] }),
                (StepView::Attempt {
                    program: "systemctl"@,
                    args: seq!["disable"@, "auto-server"@],
                }),
                unit,
                (StepView::Run { program: "systemctl"@, args: seq!["daemon-reload"@] }),
            ]
            &&& !machine.systemd && machine.openrc ==> plan.len() == 4 && plan.take(3) == seq![
                (StepView::Attempt { program: "rc-service"@, args: seq!["auto-server"@, "stop"@] }),
                (StepView::Attempt { program: "rc-update"@, args: seq!["del"@, "auto-server"@] }),
                script,
            ]
            &&& sysv && machine.update_rc_d ==> plan.len() == 4 && plan.take(3) == seq![
                stop,
                (StepView::Attempt {
                    program: "update-rc.d"@,
                    args: seq!["-f"@, "auto-server"@, "remove"@],
                }),
                script,
            ]
            &&& sysv && !machine.update_rc_d && machine.chkconfig ==> plan.len() == 5 && plan.take(
                4,
            ) == seq![
                stop,
                (StepView::Attempt { program: "chkconfig"@, args: seq!["auto-server"@, "off"@] }),
                (StepView::Attempt { program: "chkconfig"@, args: seq!["--del"@, "auto-server"@] }),
                script,
            ]
            &&& sysv && !machine.update_rc_d && !machine.chkconfig ==> plan.len() == 3 && plan.take(
                2,
            ) == seq![stop, script]
        }),
{
}

/// What the user is told of a service command that is refused.
pub proof fn lemma_messages()
    ensures
        ServiceError::NotRoot.spec_message()
            == "This command must be run as root (e.g. `sudo auto-server service ...`)."@,
        ServiceError::NoInitSystem.spec_message()
            == "Could not detect a supported init system (systemd, OpenRC, or SysV init)."@,
        ServiceError::NoEnableTool.spec_message()
            == "Could not find `update-rc.d` or `chkconfig` to enable the service."@,
{
}

/// What the user is told of an installation and of a removal, word by word, and
/// that nothing else is done.
pub proof fn lemma_reports(machine: Machine, args: Seq<Seq<char>>)
    ensures
        ({
            let plan = install_plan(None, args, machine);
            let gone = plan_of(ServiceAction::Uninstall, machine);
            let next = StepView::Say(
                "Next: `auto-server service enable` then `auto-server service start`"@,
            );
            &&& machine.systemd ==> plan.len() >= 4 && plan[2] == StepView::Say(
                "Installed systemd unit at "@ + "/etc/systemd/system/auto-server.service"@,
            ) && plan[3] == StepView::Say("ExecStart uses binary: "@ + machine.binary@)
            &&& machine.systemd && args.len() == 0 ==> plan.skip(4) == seq![next]
            &&& machine.systemd && args.len() > 0 ==> plan.skip(4) == seq![
                StepView::Say("Forwarded args: "@ + joined(args)),
                next,
            ]
            &&& !machine.systemd && machine.openrc ==> plan.skip(1) == seq![
                StepView::Say("Installed OpenRC init script at "@ + "/etc/init.d/auto-server"@),
                StepView::Say("DAEMON uses binary: "@ + machine.binary@),
            ]
            &&& !machine.systemd && !machine.openrc && machine.init_d ==> plan.skip(1) == seq![
                StepView::Say("Installed SysV init script at "@ + "/etc/init.d/auto-server"@),
                StepView::Say("DAEMON uses binary: "@ + machine.binary@),
            ]
            &&& machine.systemd ==> gone.last() == StepView::Say(
                "Removed systemd unit at "@ + "/etc/systemd/system/auto-server.service"@,
            )
            &&& !machine.systemd && machine.openrc ==> gone.last() == StepView::Say(
                "Removed OpenRC init script at "@ + "/etc/init.d/auto-server"@,
            )
            &&& !machine.systemd && !machine.openrc && machine.init_d ==> gone.last()
                == StepView::Say("Removed SysV init script at "@ + "/etc/init.d/auto-server"@)
        }),
{
}

/// Words are joined with one space between each two, and none at the ends.
pub proof fn lemma_joined(words: Seq<Seq<char>>, word: Seq<char>)
    ensures
        joined(Seq::<Seq<char>>::empty()).len() == 0,
        joined(seq![word]) == word,
        words.len() > 0 ==> joined(words.push(word)) == joined(words) + seq![' '] + word,
{
    assert(words.push(word).drop_last() == words);
}

/// A destination replaces the path of the running binary; else that is used.
pub proof fn lemma_service_binary(dest: String, machine: Machine)
    ensures
        service_binary(Some(dest), machine) == dest@,
        service_binary(None, machine) == machine.binary@,
{
}

} // verus!
