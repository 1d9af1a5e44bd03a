//! The tail of the server's log, as a window shows it while it grows.
//!
//! The file is the caller's to open and read. [`Tail::plan`] says from where to
//! read, [`Tail::absorb`] takes in what was read, [`Tail::lost`] that there was no
//! file.
use vstd::prelude::*;
use vstd::slice::slice_subrange;
use vstd::string::*;
use crate::ini::parse_int;
use crate::rounding::{one_decimal, push_one_decimal, push_wide, round_half_even, rounded};
use crate::text::{
    dec, find_char, from_chars, lemma_find_char, opt, parse_signed, position, push_dec, to_chars,
    trim, trim_str,
};
use crate::utf8::{byte_len, count_bytes, lemma_byte_len_step, width_of};

verus! {

/// How far from the end a first read begins.
pub const INIT_TAIL: u64 = 65536;

/// How many bytes of text are kept.
pub const MAX_RETAINED: u64 = 262144;

/// What the window shows where there is no file.
pub open spec fn missing_text() -> Seq<char> {
    "(log file not found — it is created the first time llama-server starts)"@
}

/// What was read so far.
#[derive(Debug, Clone, PartialEq, Eq)]
pub struct Tail {
    /// How much of the file was taken in.
    pub offset: u64,
    /// The text that is kept.
    pub buffer: String,
    /// Whether the text is the remark about a missing file.
    pub missing: bool,
}

impl Default for Tail {
    fn default() -> (r: Self)
        ensures
            r.offset == 0,
            r.buffer@.len() == 0,
            !r.missing,
    {
        Tail { offset: 0, buffer: String::new(), missing: false }
    }
}

/// Where to read.
#[derive(Debug, Clone, Copy, PartialEq, Eq, Structural)]
pub struct Read {
    pub from: u64,
    /// Whether the place is in the middle of the file, and so of a line.
    pub backfill: bool,
}

/// The smallest number of characters that take so many bytes at least.
pub open spec fn chars_for(s: Seq<char>, n: int, from: int) -> int
    decreases s.len() - from,
{
    if from < 0 || from >= s.len() || byte_len(s.take(from)) >= n {
        from
    } else {
        chars_for(s, n, from + 1)
    }
}

/// What is left of a text behind its first line break, or all of it.
pub open spec fn past_line(s: Seq<char>) -> Seq<char> {
    if find_char(s, '\n') < s.len() {
        s.skip(find_char(s, '\n') + 1)
    } else {
        s
    }
}

/// The end of a text that is kept: all of it where it is small enough, else what
/// begins with the first whole line that fits.
pub open spec fn retained(s: Seq<char>) -> Seq<char> {
    if byte_len(s) <= MAX_RETAINED {
        s
    } else {
        past_line(s.skip(chars_for(s, byte_len(s) - MAX_RETAINED, 0)))
    }
}

proof fn lemma_chars_for(s: Seq<char>, n: int, from: int)
    requires
        0 <= from <= s.len(),
        n <= byte_len(s),
    ensures
        from <= chars_for(s, n, from) <= s.len(),
        byte_len(s.take(chars_for(s, n, from))) >= n,
    decreases s.len() - from,
{
    if from < s.len() && byte_len(s.take(from)) < n {
        lemma_chars_for(s, n, from + 1);
    } else if from == s.len() {
        assert(s.take(from) =~= s);
    }
}

proof fn lemma_byte_len_split(s: Seq<char>, k: int)
    requires
        0 <= k <= s.len(),
    ensures
        byte_len(s) == byte_len(s.take(k)) + byte_len(s.skip(k)),
    decreases s.len(),
{
    if k == s.len() {
        assert(s.take(k) =~= s);
        assert(s.skip(k).len() == 0);
    } else {
        let init = s.drop_last();
        lemma_byte_len_split(init, k);
        assert(init.take(k) =~= s.take(k));
        assert(s.skip(k).drop_last() =~= init.skip(k));
        assert(s.skip(k).last() == s.last());
    }
}

/// What is kept is the end of the text, and never takes more bytes than the limit.
pub proof fn law_retained_is_bounded(s: Seq<char>)
    ensures
        byte_len(retained(s)) <= MAX_RETAINED,
        exists|k: int| 0 <= k <= s.len() && retained(s) == #[trigger] s.skip(k),
{
    if byte_len(s) <= MAX_RETAINED {
        assert(s.skip(0) =~= s);
    } else {
        let over = byte_len(s) - MAX_RETAINED;
        lemma_chars_for(s, over, 0);
        let k = chars_for(s, over, 0);
        let rest = s.skip(k);
        lemma_byte_len_split(s, k);
        lemma_find_char(rest, '\n');
        let i = find_char(rest, '\n');
        if i < rest.len() {
            lemma_byte_len_split(rest, i + 1);
            assert(rest.skip(i + 1) =~= s.skip(k + i + 1));
        } else {
            assert(retained(s) == s.skip(k));
        }
    }
}

proof fn lemma_chars_for_least(s: Seq<char>, n: int, from: int, m: int)
    requires
        0 <= from <= m < chars_for(s, n, from),
        from <= s.len(),
    ensures
        m < s.len(),
        byte_len(s.take(m)) < n,
    decreases s.len() - from,
{
    if from < m {
        lemma_chars_for_least(s, n, from + 1, m);
    }
}

/// A text that is small enough is kept whole. Of one that is not, what is kept begins
/// with a whole line, wherever a line begins in what could be kept; and every earlier
/// line would have filled the limit, up to one character.
pub proof fn law_only_old_lines_go(s: Seq<char>) -> (k: int)
    ensures
        0 <= k <= s.len(),
        retained(s) == s.skip(k),
        byte_len(s) <= MAX_RETAINED ==> k == 0,
        k > 0 ==> s[k - 1] == '\n' || !retained(s).contains('\n'),
        forall|j: int|
            0 < j < k && #[trigger] s[j - 1] == '\n' ==> byte_len(s.skip(j)) + 4 > MAX_RETAINED,
{
    if byte_len(s) <= MAX_RETAINED {
        assert(s.skip(0) =~= s);
        0
    } else {
        let over = byte_len(s) - MAX_RETAINED;
        lemma_chars_for(s, over, 0);
        let c = chars_for(s, over, 0);
        let rest = s.skip(c);
        lemma_find_char(rest, '\n');
        let i = find_char(rest, '\n');
        let k = if i < rest.len() {
            c + i + 1
        } else {
            c
        };
        assert(retained(s) =~= s.skip(k));
        assert forall|j: int| 0 < j < k && #[trigger] s[j - 1] == '\n' implies byte_len(s.skip(j)) + 4
            > MAX_RETAINED by {
            if j - 1 >= c {
                assert(rest[j - 1 - c] == s[j - 1]);
            } else {
                lemma_chars_for_least(s, over, 0, j - 1);
                lemma_byte_len_step(s, j - 1);
                lemma_byte_len_split(s, j);
            }
        }
        if i < rest.len() {
            assert(rest[i] == s[k - 1]);
        } else if rest.contains('\n') {
            let q = choose|q: int| 0 <= q < rest.len() && rest[q] == '\n';
            assert(rest[q] == '\n');
        }
        k
    }
}

/// A size that is typed is the number that its numeral denotes, unless it is negative.
pub proof fn law_typed_size(n: i32)
    ensures
        size_in(crate::text::dec_int(n as int)) == if n >= 0 {
            Some(n as int)
        } else {
            None
        },
{
    crate::sweep_laws::lemma_dec_int_shape(n as int);
    crate::text::lemma_parse_dec_int(n as int, i32::MIN as int, i32::MAX as int);
}

/// How long ago something was is told in the largest unit of which there are two.
pub proof fn law_ages(s: u64)
    ensures
        log_age(None).len() == 0,
        s <= 1 ==> log_age(Some(s)) == " · updated just now"@,
        2 <= s <= 119 ==> log_age(Some(s)) == " · updated "@ + dec(s as nat) + " s ago"@,
        2 * 60 <= s < 2 * 3600 ==> exists|m: nat|
            log_age(Some(s)) == " · updated "@ + #[trigger] dec(m) + " min ago"@ && m * 60 <= s < (m + 1)
                * 60,
        2 * 3600 <= s ==> exists|h: nat|
            log_age(Some(s)) == " · updated "@ + #[trigger] dec(h) + " h ago"@ && h * 3600 <= s < (h
                + 1) * 3600,
{
    let m = (s / 60) as nat;
    let h = (s / 3600) as nat;
    assert(m * 60 <= s < (m + 1) * 60);
    assert(h * 3600 <= s < (h + 1) * 3600);
    if 120 <= s < 7200 {
        assert(log_age(Some(s)) == " · updated "@ + dec(m) + " min ago"@);
    }
    if 7200 <= s {
        assert(log_age(Some(s)) == " · updated "@ + dec(h) + " h ago"@);
    }
}

fn trim_to_limit(text: &str) -> (r: String)
    ensures
        r@ == retained(text@),
{
    let c = to_chars(text);
    let total: u128 = count_bytes(c.as_slice());
    if total <= MAX_RETAINED as u128 {
        return text.to_owned();
    }
    let over: u128 = total - MAX_RETAINED as u128;
    let ghost s = text@;
    let mut seen: u128 = 0;
    let mut k: usize = 0;
    assert(s.take(0) =~= Seq::<char>::empty());
    while k < c.len() && seen < over
        invariant
            k <= c@.len(),
            c@ == s,
            seen == byte_len(s.take(k as int)),
            seen <= 4 * k,
            chars_for(s, over as int, 0) == chars_for(s, over as int, k as int),
        decreases c.len() - k,
    {
        proof {
            lemma_byte_len_step(s, k as int);
        }
        seen = seen + width_of(c[k]) as u128;
        k += 1;
    }
    let n: usize = c.len();
    let rest = slice_subrange(c.as_slice(), k, n);
    assert(rest@ =~= s.skip(k as int));
    let i: usize = position(rest, '\n');
    if i < rest.len() {
        let kept = slice_subrange(rest, i + 1, rest.len());
        assert(kept@ =~= rest@.skip(i + 1));
        from_chars(kept)
    } else {
        from_chars(rest)
    }
}

impl Tail {
    /// There is no file: the window says so, and the next one is read from its top.
    pub fn lost(&mut self)
        ensures
            final(self).offset == 0,
            final(self).buffer@ == missing_text(),
            final(self).missing,
    {
        self.offset = 0;
        self.buffer = "(log file not found — it is created the first time llama-server starts)".to_owned();
        self.missing = true;
    }

    /// How much of a file of this length was taken in: none of one that became
    /// shorter.
    pub open spec fn taken(self, len: u64) -> u64 {
        if len < self.offset {
            0
        } else {
            self.offset
        }
    }

    /// What is read next of a file of this length, and what is kept for it.
    pub open spec fn planned(self, len: u64, b: Tail, r: Option<Read>) -> bool {
        &&& !b.missing
        &&& b.buffer@ == if self.missing || len < self.offset {
            Seq::<char>::empty()
        } else {
            self.buffer@
        }
        &&& b.offset == if self.taken(len) == 0 && len > INIT_TAIL {
            (len - INIT_TAIL) as u64
        } else {
            self.taken(len)
        }
        &&& r == if b.offset == len {
            None
        } else {
            Some(
                Read {
                    from: b.offset,
                    backfill: self.taken(len) == 0 && len > INIT_TAIL,
                },
            )
        }
    }

    /// Says from where to read a file of this length, or that nothing is new. A
    /// file that became shorter is another one; a long one is read from near its
    /// end.
    pub fn plan(&mut self, len: u64) -> (r: Option<Read>)
        ensures
            old(self).planned(len, *final(self), r),
    {
        if self.missing {
            self.buffer = String::new();
            self.missing = false;
        }
        if len < self.offset {
            self.offset = 0;
            self.buffer = String::new();
        }
        let backfill: bool = self.offset == 0 && len > INIT_TAIL;
        if backfill {
            self.offset = len - INIT_TAIL;
        }
        if len == self.offset {
            return None;
        }
        Some(Read { from: self.offset, backfill })
    }

    /// Takes in what was read: so many bytes, and their text. A read from the
    /// middle of the file begins with the next whole line.
    pub fn absorb(&mut self, read: Read, bytes: u64, text: &str)
        requires
            old(self).offset + bytes <= u64::MAX,
        ensures
            final(self).offset == old(self).offset + bytes,
            final(self).missing == old(self).missing,
            final(self).buffer@ == retained(
                old(self).buffer@ + if read.backfill {
                    past_line(text@)
                } else {
                    text@
                },
            ),
    {
        self.offset = self.offset + bytes;
        let mut whole: String = self.buffer.clone();
        if read.backfill {
            let c = to_chars(text);
            let i: usize = position(c.as_slice(), '\n');
            if i < c.len() {
                let rest = slice_subrange(c.as_slice(), i + 1, c.len());
                assert(rest@ =~= past_line(text@));
                let s = from_chars(rest);
                whole.append(s.as_str());
            } else {
                whole.append(text);
            }
        } else {
            whole.append(text);
        }
        self.buffer = trim_to_limit(whole.as_str());
    }
}

// ── The line above the tail ──────────────────────────────────────────────

/// A size: bytes, KB without decimals, MB with one.
pub open spec fn log_size(len: u64) -> Seq<char> {
    if len < 1024 {
        dec(len as nat) + " B"@
    } else if len < 1024 * 1024 {
        dec(round_half_even(len as nat, 1024)) + " KB"@
    } else {
        one_decimal(len as nat, 1024 * 1024) + " MB"@
    }
}

/// How long ago, in the largest unit that fits; nothing where it is not known.
pub open spec fn log_age(age: Option<u64>) -> Seq<char> {
    match age {
        None => Seq::empty(),
        Some(s) => if s < 2 {
            " · updated just now"@
        } else if s < 120 {
            " · updated "@ + dec(s as nat) + " s ago"@
        } else if s < 7200 {
            " · updated "@ + dec((s / 60) as nat) + " min ago"@
        } else {
            " · updated "@ + dec((s / 3600) as nat) + " h ago"@
        },
    }
}

/// The size of the log and how long ago it changed.
pub fn tail_status(len: u64, age: Option<u64>) -> (r: String)
    ensures
        r@ == log_size(len) + log_age(age),
{
    let mut out: String = String::new();
    if len < 1024 {
        push_dec(&mut out, len);
        assert(out@ =~= dec(len as nat));
        out.append(" B");
    } else if len < 1024 * 1024 {
        let kb: u128 = rounded(len as u128, 1024);
        push_wide(&mut out, kb);
        assert(out@ =~= dec(round_half_even(len as nat, 1024)));
        out.append(" KB");
    } else {
        push_one_decimal(&mut out, len, 1024 * 1024);
        assert(out@ =~= one_decimal(len as nat, 1024 * 1024));
        out.append(" MB");
    }
    assert(out@ =~= log_size(len));
    let mut ago: String = String::new();
    match age {
        None => {},
        Some(s) => {
            if s < 2 {
                ago = " · updated just now".to_owned();
            } else if s < 120 {
                ago = " · updated ".to_owned();
                push_dec(&mut ago, s);
                ago.append(" s ago");
            } else if s < 7200 {
                ago = " · updated ".to_owned();
                push_dec(&mut ago, s / 60);
                ago.append(" min ago");
            } else {
                ago = " · updated ".to_owned();
                push_dec(&mut ago, s / 3600);
                ago.append(" h ago");
            }
        },
    }
    assert(ago@ =~= log_age(age));
    out.append(ago.as_str());
    out
}

// ── The size from which a log is filed away ──────────────────────────────

/// What becomes of the size that was typed.
#[derive(Debug, Clone, PartialEq, Eq)]
pub enum SizeEdit {
    /// Nothing that can be stored: the old size comes back, with a complaint where
    /// anything was typed.
    Restore(Option<String>),
    /// The size that is stored already.
    Keep,
    /// A new size, and what is said once it is stored.
    Store(u32, String),
}

/// The size in a field, in KB.
pub open spec fn size_in(text: Seq<char>) -> Option<int> {
    match parse_signed(trim(text), i32::MIN as int, i32::MAX as int) {
        Some(n) => if n >= 0 {
            Some(n)
        } else {
            None
        },
        None => None,
    }
}

/// Decides what becomes of the size that was typed.
pub fn edit_log_size(text: &str, stored: u32) -> (r: SizeEdit)
    ensures
        match size_in(text@) {
            None => r is Restore && opt(r->Restore_0) == if trim(text@).len() > 0 {
                Some("'"@ + text@ + "' is not a size in KB."@)
            } else {
                None
            },
            Some(n) => if n == stored {
                r is Keep
            } else {
                r is Store && r->Store_0 == n && r->Store_1@ == if n == 0 {
                    "Every non-empty log will be filed away."@
                } else {
                    "Logs larger than "@ + dec(n as nat) + " KB will be filed away."@
                }
            },
        },
{
    let t = trim_str(text);
    let read = parse_int(text);
    match read {
        Some(n) => {
            if n >= 0 {
                if n as u32 == stored {
                    return SizeEdit::Keep;
                }
                if n == 0 {
                    return SizeEdit::Store(0, "Every non-empty log will be filed away.".to_owned());
                }
                let mut s: String = "Logs larger than ".to_owned();
                push_dec(&mut s, n as u64);
                s.append(" KB will be filed away.");
                return SizeEdit::Store(n as u32, s);
            }
        },
        None => {},
    }
    if t.as_str().is_empty() {
        return SizeEdit::Restore(None);
    }
    let mut e: String = "'".to_owned();
    e.append(text);
    e.append("' is not a size in KB.");
    SizeEdit::Restore(Some(e))
}

/// A size is told in bytes, in whole KB or in MB with a decimal, whichever is the first
/// that is less than 1024 of the next.
pub proof fn law_sizes(len: u64)
    ensures
        len <= 1023 ==> log_size(len) == dec(len as nat) + " B"@,
        1024 <= len <= 1048575 ==> exists|k: nat|
            log_size(len) == #[trigger] dec(k) + " KB"@ && -1024 <= 2 * (k * 1024 - len) <= 1024,
        1048576 <= len ==> log_size(len) == one_decimal(len as nat, 1048576) + " MB"@,
{
    crate::rounding::law_rounds_to_nearest(len as nat, 1024);
    let k = round_half_even(len as nat, 1024);
    if 1024 <= len <= 1048575 {
        assert(log_size(len) == dec(k) + " KB"@);
    }
}

/// A file that grew is read on from where the last read ended, with the text so far kept;
/// one that did not is left alone. A file that became shorter, or that nothing was read
/// of, is read from its beginning, or from near its end where it is long, and nothing is
/// kept of another file. All that is left is read.
pub proof fn law_reading_goes_on(a: Tail, len: u64, b: Tail, r: Option<Read>)
    requires
        a.planned(len, b, r),
    ensures
        !b.missing,
        b.offset <= len,
        r is None <==> b.offset == len,
        r matches Some(read) ==> read.from == b.offset,
        0 < a.offset <= len ==> b.offset == a.offset && (r matches Some(read) ==> !read.backfill),
        a.offset <= len && !a.missing ==> b.buffer@ == a.buffer@,
        len < a.offset || a.missing ==> b.buffer@.len() == 0,
        (a.offset == 0 || len < a.offset) && len <= 65536 ==> b.offset == 0 && (r matches Some(read)
            ==> !read.backfill),
        (a.offset == 0 || len < a.offset) && len > 65536 ==> len - b.offset == 65536 && (
        r matches Some(read) && read.backfill),
{
}

} // verus!
