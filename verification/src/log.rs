//! The log: how lines are written, and which of them are shown.
use vstd::prelude::*;
use vstd::string::*;
use vstd::utf8::*;
use crate::outside::{from_utf8_lossy, hex_chars, hex_digit, hex_encode, lossy_text};
use crate::text::{
    decimal, fields, lemma_fields_nonempty, lemma_fields_split, push_decimal, say, split_on, texts,
};

verus! {

/// How much of the end of a log file is read at first to show its last lines.
pub const TAIL_BYTES: u64 = 65536;

/// The control characters of ASCII and Latin-1.
pub open spec fn is_control(c: char) -> bool {
    c as u32 <= 0x1f || 0x7f <= c as u32 <= 0x9f
}

/// How a character appears in the log.
pub open spec fn escaped_char(c: char) -> Seq<char> {
    if c == '\n' {
        "\\n"@
    } else if c == '\r' {
        "\\r"@
    } else if c == '\t' {
        "\\t"@
    } else if is_control(c) {
        "\\x"@ + hex_chars(seq![c as u8])
    } else {
        seq![c]
    }
}

/// How a text appears in the log.
pub open spec fn escaped(s: Seq<char>) -> Seq<char>
    decreases s.len(),
{
    if s.len() == 0 {
        Seq::empty()
    } else {
        escaped(s.drop_last()) + escaped_char(s.last())
    }
}

/// Replaces control characters by visible forms, so that a message can neither start a
/// line of its own nor steer a terminal.
pub fn escape_log(msg: &str) -> (r: String)
    ensures
        r@ == escaped(msg@),
{
    let mut out = String::new();
    for c in it: msg.chars()
        invariant
            it.seq() == msg@,
            out@ == escaped(msg@.take(it.index() as int)),
    {
        let ghost i = it.index() as int;
        assert(msg@.take(i + 1).drop_last() =~= msg@.take(i));
        let ghost before = out@;
        if c == '\n' {
            out.append("\\n");
        } else if c == '\r' {
            out.append("\\r");
        } else if c == '\t' {
            out.append("\\t");
        } else if c as u32 <= 0x1f || (0x7f <= c as u32 && c as u32 <= 0x9f) {
            let code: [u8; 1] = [c as u8];
            let digits = hex_encode(code.as_slice());
            out.append("\\x");
            out.append(digits.as_str());
            assert(code@ =~= seq![c as u8]);
            assert(out@ =~= before + escaped_char(c));
        } else {
            out.push(c);
            assert(out@ =~= before + escaped_char(c));
        }
    }
    assert(msg@.take(msg@.len() as int) =~= msg@);
    out
}

/// A line of the log, with the end of the line.
pub open spec fn log_line(ts: nat, level: Seq<char>, msg: Seq<char>) -> Seq<char> {
    "["@ + decimal(ts) + "] ["@ + level + "] "@ + escaped(msg) + "\n"@
}

/// A log and the file that it is kept in. Every message becomes one line, which is then
/// to be added to that file.
#[derive(Debug, Clone)]
pub struct Logger {
    pub path: String,
}

impl Logger {
    pub fn new(path: String) -> (r: Self)
        ensures
            r.path == path,
    {
        Logger { path }
    }

    pub fn info(&self, ts: u64, msg: &str) -> (r: String)
        ensures
            r@ == log_line(ts as nat, "INFO"@, msg@),
    {
        line(ts, "INFO", msg)
    }

    pub fn warn(&self, ts: u64, msg: &str) -> (r: String)
        ensures
            r@ == log_line(ts as nat, "WARN"@, msg@),
    {
        line(ts, "WARN", msg)
    }

    pub fn debug(&self, ts: u64, msg: &str) -> (r: String)
        ensures
            r@ == log_line(ts as nat, "DEBUG"@, msg@),
    {
        line(ts, "DEBUG", msg)
    }

    pub fn error(&self, ts: u64, msg: &str) -> (r: String)
        ensures
            r@ == log_line(ts as nat, "ERROR"@, msg@),
    {
        line(ts, "ERROR", msg)
    }
}

/// A line of the log. `ts` is the time in seconds since 1970.
fn line(ts: u64, level: &str, msg: &str) -> (r: String)
    ensures
        r@ == log_line(ts as nat, level@, msg@),
{
    let text = escape_log(msg);
    let mut out = "[".to_owned();
    push_decimal(&mut out, ts);
    out.append("] [");
    out.append(level);
    out.append("] ");
    out.append(text.as_str());
    out.append("\n");
    out
}

/// A line without the carriage return before its end.
pub open spec fn without_return(line: Seq<char>) -> Seq<char> {
    if line.len() > 0 && line.last() == '\r' {
        line.drop_last()
    } else {
        line
    }
}

/// The lines of a text. They end in a line feed, or in a carriage return and a line
/// feed; the last one may have no end.
pub open spec fn lines(s: Seq<char>) -> Seq<Seq<char>> {
    let f = fields(s, '\n');
    let ended = Seq::new((f.len() - 1) as nat, |i: int| without_return(f[i]));
    if f.last().len() == 0 {
        ended
    } else {
        ended.push(f.last())
    }
}

/// The last `n` items of a sequence, or all where there are fewer.
pub open spec fn last_of<T>(s: Seq<T>, n: nat) -> Seq<T> {
    if n >= s.len() {
        s
    } else {
        s.skip(s.len() - n)
    }
}

/// A text without its last character.
fn drop_last_char(s: &str) -> (r: String)
    requires
        s@.len() > 0,
    ensures
        r@ == s@.drop_last(),
{
    let n: usize = s.unicode_len();
    let r = s.substring_char(0, n - 1);
    assert(r@ =~= s@.drop_last());
    r.to_owned()
}

/// The lines of a text.
pub fn split_lines(s: &str) -> (r: Vec<String>)
    ensures
        texts(r@) == lines(s@),
{
    let parts = split_on(s, '\n');
    let n: usize = parts.len();
    let ghost f = fields(s@, '\n');
    proof {
        lemma_fields_nonempty(s@, '\n');
        assert(texts(parts@).len() == n);
        assert forall|k: int| 0 <= k < n implies (#[trigger] parts@[k])@ == f[k] by {
            assert(texts(parts@)[k] == f[k]);
        }
    }
    let mut out: Vec<String> = Vec::new();
    let mut i: usize = 0;
    while i < n - 1
        invariant
            1 <= n == parts@.len() == f.len(),
            i <= n - 1,
            forall|k: int| 0 <= k < n ==> (#[trigger] parts@[k])@ == f[k],
            texts(out@) =~= Seq::new(i as nat, |k: int| without_return(f[k])),
        decreases n - i,
    {
        let part = parts[i].as_str();
        let len: usize = part.unicode_len();
        if len > 0 && part.get_char(len - 1) == '\r' {
            say(&mut out, drop_last_char(part));
        } else {
            say(&mut out, part.to_owned());
        }
        i = i + 1;
    }
    let part = parts[n - 1].as_str();
    if part.unicode_len() > 0 {
        say(&mut out, part.to_owned());
    }
    assert(texts(out@) =~= lines(s@));
    out
}

/// What follows the first line feed of a byte string.
pub open spec fn after_break(bytes: Seq<u8>) -> Option<Seq<u8>>
    decreases bytes.len(),
{
    if bytes.len() == 0 {
        None
    } else if bytes[0] == 10 {
        Some(bytes.skip(1))
    } else {
        after_break(bytes.skip(1))
    }
}

/// Whether the end of a file, of which `end` was read so far, holds its last `n` lines
/// whole: it is the whole file, or there are as many lines behind its first line feed.
pub open spec fn holds_lines(end: Seq<u8>, size: nat, n: nat) -> bool {
    ||| end.len() == size
    ||| n == 0
    ||| after_break(end) is Some && lines(lossy_text(after_break(end)->0)).len() >= n
}

/// The last `n` lines of what was read of the end of a file.
pub open spec fn shown_lines(end: Seq<u8>, size: nat, n: nat) -> Seq<Seq<char>> {
    if end.len() == size {
        last_of(lines(lossy_text(end)), n)
    } else if n == 0 {
        Seq::empty()
    } else {
        last_of(lines(lossy_text(after_break(end)->0)), n)
    }
}

/// How much of the end of a file to read next: twice as much as before.
pub open spec fn next_size(read: nat, size: nat) -> nat {
    let more = if 2 * read < TAIL_BYTES {
        TAIL_BYTES as nat
    } else {
        2 * read
    };
    if more < size {
        more
    } else {
        size
    }
}

/// What to do next to show the end of a log.
pub enum TailStep {
    /// Read this many bytes of the end of the file.
    Read(u64),
    /// Show these lines.
    Show(Vec<String>),
}

/// Where what follows the first line feed begins.
fn break_end(bytes: &[u8]) -> (r: Option<usize>)
    ensures
        match r {
            Some(k) => k <= bytes@.len() && after_break(bytes@) == Some(bytes@.skip(k as int)),
            None => after_break(bytes@) is None,
        },
{
    let mut i: usize = 0;
    assert(bytes@.skip(0) =~= bytes@);
    while i < bytes.len()
        invariant
            i <= bytes@.len(),
            after_break(bytes@) == after_break(bytes@.skip(i as int)),
        decreases bytes@.len() - i,
    {
        let ghost rest = bytes@.skip(i as int);
        assert(rest[0] == bytes@[i as int]);
        assert(rest.skip(1) =~= bytes@.skip(i + 1));
        if bytes[i] == 10 {
            return Some(i + 1);
        }
        i = i + 1;
    }
    None
}

/// Shows the last `n` lines of a log file of `size` bytes, of which `end` was read so far,
/// or says how much more of its end is needed.
pub fn tail(end: &[u8], size: u64, n: usize) -> (r: TailStep)
    requires
        end@.len() <= size,
    ensures
        match r {
            TailStep::Show(v) => {
                &&& holds_lines(end@, size as nat, n as nat)
                &&& texts(v@) == shown_lines(end@, size as nat, n as nat)
                &&& forall|whole: Seq<u8>|
                    whole.len() == size && valid_utf8(whole) && #[trigger] ends_with(whole, end@)
                        ==> texts(v@) == last_of(lines(lossy_text(whole)), n as nat)
            },
            TailStep::Read(more) => {
                &&& !holds_lines(end@, size as nat, n as nat)
                &&& more == next_size(end@.len(), size as nat)
                &&& end@.len() < more <= size
            },
        },
{
    let len: u64 = end.len() as u64;
    assert(end@.len() == end.len());
    let shown: Vec<String> = if len == size {
        last_lines(end, n)
    } else if n == 0 {
        let none: Vec<String> = Vec::new();
        assert(texts(none@) =~= Seq::<Seq<char>>::empty());
        none
    } else {
        let mut enough: Option<Vec<String>> = None;
        if let Some(k) = break_end(end) {
            let rest = vstd::slice::slice_subrange(end, k, end.len());
            assert(rest@ =~= end@.skip(k as int));
            let text = from_utf8_lossy(rest);
            let all = split_lines(text.as_str());
            assert(texts(all@).len() == all@.len());
            if all.len() >= n {
                enough = Some(keep_last(all, n));
            }
        }
        match enough {
            Some(v) => v,
            None => {
                let more: u64 = if len < TAIL_BYTES / 2 {
                    TAIL_BYTES
                } else if len >= size - len {
                    size
                } else {
                    2 * len
                };
                return TailStep::Read(
                    if more < size {
                        more
                    } else {
                        size
                    },
                );
            },
        }
    };
    proof {
        assert forall|whole: Seq<u8>|
            whole.len() == size && valid_utf8(whole) && #[trigger] ends_with(whole, end@) implies texts(
            shown@,
        ) == last_of(lines(lossy_text(whole)), n as nat) by {
            the_tail_is_that_of_the_file(whole, end@, n as nat);
        }
    }
    TailStep::Show(shown)
}

/// The last `n` items of a list.
fn keep_last(all: Vec<String>, n: usize) -> (r: Vec<String>)
    ensures
        texts(r@) == last_of(texts(all@), n as nat),
{
    assert(texts(all@).len() == all@.len());
    let len: usize = all.len();
    if n >= len {
        return all;
    }
    let mut out: Vec<String> = Vec::new();
    let mut i: usize = len - n;
    while i < len
        invariant
            n < len,
            len - n <= i <= len,
            len == all@.len(),
            texts(out@) =~= texts(all@).subrange(len - n, i as int),
        decreases len - i,
    {
        say(&mut out, all[i].clone());
        assert(texts(all@)[i as int] == all@[i as int]@);
        i = i + 1;
    }
    assert(texts(out@) =~= texts(all@).skip(len - n));
    out
}

/// The last `n` lines of a byte string.
fn last_lines(bytes: &[u8], n: usize) -> (r: Vec<String>)
    ensures
        texts(r@) == last_of(lines(lossy_text(bytes@)), n as nat),
{
    let text = from_utf8_lossy(bytes);
    keep_last(split_lines(text.as_str()), n)
}

/// Whether a file ends with what was read.
pub open spec fn ends_with(whole: Seq<u8>, end: Seq<u8>) -> bool {
    end.len() <= whole.len() && end == whole.skip(whole.len() - end.len())
}

proof fn lemma_after_break(bytes: Seq<u8>) -> (k: int)
    requires
        after_break(bytes) is Some,
    ensures
        0 <= k < bytes.len(),
        bytes[k] == 10,
        after_break(bytes)->0 == bytes.skip(k + 1),
    decreases bytes.len(),
{
    if bytes[0] == 10 {
        0
    } else {
        let k = lemma_after_break(bytes.skip(1));
        assert(bytes.skip(1).skip(k + 1) =~= bytes.skip(k + 2));
        k + 1
    }
}

/// A line feed separates UTF-8 into UTF-8.
proof fn lemma_split_at_break(bytes: Seq<u8>, k: int)
    requires
        valid_utf8(bytes),
        0 <= k < bytes.len(),
        bytes[k] == 10,
    ensures
        valid_utf8(bytes.skip(k + 1)),
        decode_utf8(bytes) == decode_utf8(bytes.take(k)).push('\n') + decode_utf8(bytes.skip(k + 1)),
{
    is_char_boundary_iff_not_is_continuation_byte(bytes, k);
    assert(!is_continuation_byte(bytes[k]));
    valid_utf8_split(bytes, k);
    decode_utf8_split(bytes, k);
    let rest = bytes.subrange(k, bytes.len() as int);
    assert(bytes.subrange(0, k) =~= bytes.take(k));
    assert(rest[0] == 10);
    assert(valid_first_scalar(rest));
    assert(pop_first_scalar(rest) =~= bytes.skip(k + 1));
    assert(decode_first_scalar(rest) as char == '\n') by {
        let b: u8 = 10;
        assert(b & 0x7f == 10) by (bit_vector)
            requires
                b == 10u8,
        ;
    }
    assert(decode_utf8(rest) =~= seq!['\n'] + decode_utf8(bytes.skip(k + 1)));
    assert(decode_utf8(bytes) =~= decode_utf8(bytes.take(k)).push('\n') + decode_utf8(
        bytes.skip(k + 1),
    ));
}

/// The lines behind a line feed do not depend on what stands before it.
proof fn lemma_lines_split(x: Seq<char>, y: Seq<char>) -> (head: Seq<Seq<char>>)
    ensures
        lines(x.push('\n') + y) == head + lines(y),
{
    lemma_fields_split(x, y, '\n');
    lemma_fields_nonempty(x, '\n');
    lemma_fields_nonempty(y, '\n');
    let fx = fields(x, '\n');
    let head = Seq::new(fx.len(), |i: int| without_return(fx[i]));
    assert(lines(x.push('\n') + y) =~= head + lines(y));
    head
}

/// What is shown of a log is the end of the whole log: its last `n` lines, whole and in
/// order, however much of the file had to be read for them.
pub proof fn the_tail_is_that_of_the_file(whole: Seq<u8>, end: Seq<u8>, n: nat)
    requires
        valid_utf8(whole),
        ends_with(whole, end),
        holds_lines(end, whole.len(), n),
    ensures
        shown_lines(end, whole.len(), n) == last_of(lines(lossy_text(whole)), n),
{
    if end.len() == whole.len() {
        assert(end =~= whole);
    } else if n == 0 {
        let all = lines(lossy_text(whole));
        assert(last_of(all, 0) =~= Seq::<Seq<char>>::empty());
    } else {
        let start = whole.len() - end.len();
        let k = lemma_after_break(end);
        let p = start + k;
        assert(whole[p] == end[k]);
        lemma_split_at_break(whole, p);
        let rest = after_break(end)->0;
        assert(rest =~= whole.skip(p + 1));
        let y = decode_utf8(rest);
        let head = lemma_lines_split(decode_utf8(whole.take(p)), y);
        let all = head + lines(y);
        assert(lines(lossy_text(whole)) == all);
        assert(last_of(all, n) =~= last_of(lines(y), n));
    }
}

/// Every reading brings more of a log, until its lines are there.
pub proof fn reading_goes_on(end: Seq<u8>, size: nat, n: nat)
    requires
        end.len() <= size,
        !holds_lines(end, size, n),
    ensures
        end.len() < next_size(end.len(), size) <= size,
{
}

/// What to do about a log that is being watched.
#[derive(Debug, Clone, Copy, PartialEq, Eq, Structural)]
pub enum Watch {
    /// Nothing new.
    Wait,
    /// Show what was added.
    Show,
    /// The file was cut: begin again at its start.
    Rewind,
}

/// Compares how far a log was shown with its size.
pub fn follow(offset: u64, size: u64) -> (r: Watch)
    ensures
        r == if size > offset {
            Watch::Show
        } else if size < offset {
            Watch::Rewind
        } else {
            Watch::Wait
        },
{
    if size > offset {
        Watch::Show
    } else if size < offset {
        Watch::Rewind
    } else {
        Watch::Wait
    }
}

/// Whatever a message holds, it appears in the log without control characters: it
/// neither ends its line nor starts an escape sequence.
pub proof fn messages_hold_no_controls(msg: Seq<char>)
    ensures
        forall|i: int| 0 <= i < escaped(msg).len() ==> !is_control(#[trigger] escaped(msg)[i]),
    decreases msg.len(),
{
    if msg.len() > 0 {
        messages_hold_no_controls(msg.drop_last());
        reveal_strlit("\\n");
        reveal_strlit("\\r");
        reveal_strlit("\\t");
        reveal_strlit("\\x");
        let c = msg.last();
        let e = escaped_char(c);
        assert forall|i: int| 0 <= i < e.len() implies !is_control(#[trigger] e[i]) by {
            if is_control(c) && c != '\n' && c != '\r' && c != '\t' {
                if i >= 2 {
                    let d = hex_chars(seq![c as u8]);
                    assert(e[i] == d[i - 2]);
                    let b = seq![c as u8][(i - 2) / 2];
                    assert(b / 16 < 16 && b % 16 < 16);
                    assert(d[i - 2] == hex_digit((b / 16) as nat) || d[i - 2] == hex_digit(
                        (b % 16) as nat,
                    ));
                }
            }
        }
        let head = escaped(msg.drop_last());
        assert(escaped(msg) == head + e);
        assert forall|i: int| 0 <= i < escaped(msg).len() implies !is_control(
            #[trigger] escaped(msg)[i],
        ) by {
            if i < head.len() {
                assert(escaped(msg)[i] == head[i]);
            } else {
                assert(escaped(msg)[i] == e[i - head.len()]);
            }
        }
    }
}

/// A message without control characters appears in the log as it is.
pub proof fn plain_messages_stay(msg: Seq<char>)
    requires
        forall|i: int| 0 <= i < msg.len() ==> !is_control(#[trigger] msg[i]),
    ensures
        escaped(msg) == msg,
    decreases msg.len(),
{
    if msg.len() > 0 {
        let m = msg.drop_last();
        assert forall|i: int| 0 <= i < m.len() implies !is_control(#[trigger] m[i]) by {
            assert(m[i] == msg[i]);
        }
        plain_messages_stay(m);
        assert(!is_control(msg[msg.len() - 1]));
        assert(escaped(msg) =~= msg);
    } else {
        assert(escaped(msg) =~= msg);
    }
}

} // verus!
