//! Shell commands run on the model's behalf: the request, the bounded
//! capture of their output, and the processes each session has running.
use vstd::prelude::*;
use vstd::utf8::{decode_utf8, valid_utf8};
use crate::capability::calculator::utf8_len;
use crate::capability::shell_output::CapturedStream;
use crate::extension::content::{fit_end, fit_len, lemma_fit_len_fits};
use crate::table::{keys_unique, lemma_table_absent, lemma_table_at, lemma_table_push, lemma_table_remove, lemma_table_update, table};

verus! {

/// Output kept in memory per stream; the rest goes to a spill file.
pub const MAX_STREAM_PAYLOAD_BYTES: usize = 51200;

/// A command to run for a tool call.
#[derive(Debug)]
pub struct ProcessExecRequest {
    pub session_id: u128,
    pub call_id: String,
    pub command: Vec<String>,
    /// The working directory.
    pub cwd: String,
}

/// Why a command could not run.
#[derive(Debug, PartialEq, Eq)]
pub enum ProcessManagerError {
    ChannelClosed,
    /// The process could not be spawned; the reason.
    Spawn(String),
}

/// The final byte of a CSI escape sequence.
pub open spec fn csi_final(c: char) -> bool {
    0x40 <= (c as u32) <= 0x7e
}

/// Where a CSI sequence whose parameters start at `i` ends: just past its
/// final byte, or at the end of the text.
pub open spec fn csi_end(s: Seq<char>, i: int) -> int
    decreases s.len() - i,
{
    if i < 0 || i >= s.len() {
        s.len() as int
    } else if csi_final(s[i]) {
        i + 1
    } else {
        csi_end(s, i + 1)
    }
}

proof fn lemma_csi_end(s: Seq<char>, i: int)
    requires
        0 <= i,
    ensures
        i <= csi_end(s, i) <= s.len() || (i > s.len() && csi_end(s, i) == s.len()),
        i < s.len() ==> i < csi_end(s, i),
    decreases s.len() - i,
{
    if i < s.len() && !csi_final(s[i]) {
        lemma_csi_end(s, i + 1);
    }
}

/// `s` from `i` on without its CSI escape sequences (ESC `[` up to a final
/// byte in `@`..`~`); other characters, other escapes included, stay.
pub open spec fn strip_from(s: Seq<char>, i: int) -> Seq<char>
    decreases s.len() - i,
{
    if i < 0 || i >= s.len() {
        Seq::empty()
    } else if s[i] == '\u{1b}' && i + 1 < s.len() && s[i + 1] == '[' {
        let e = csi_end(s, i + 2);
        if e <= i || e > s.len() {
            Seq::empty()
        } else {
            strip_from(s, e)
        }
    } else {
        seq![s[i]] + strip_from(s, i + 1)
    }
}

proof fn lemma_csi_end_shift(x: Seq<char>, s: Seq<char>, i: int)
    requires
        0 <= i,
    ensures
        csi_end(x + s, x.len() + i) == x.len() + csi_end(s, i),
    decreases s.len() - i,
{
    if i < s.len() {
        assert((x + s)[x.len() + i] == s[i]);
        if !csi_final(s[i]) {
            lemma_csi_end_shift(x, s, i + 1);
        }
    }
}

proof fn lemma_strip_shift(x: Seq<char>, s: Seq<char>, i: int)
    requires
        0 <= i,
    ensures
        strip_from(x + s, x.len() + i) == strip_from(s, i),
    decreases s.len() - i,
{
    let w = x + s;
    let j = x.len() + i;
    if i < s.len() {
        assert(w[j] == s[i]);
        if i + 1 < s.len() {
            assert(w[j + 1] == s[i + 1]);
        }
        if s[i] == '\u{1b}' && i + 1 < s.len() && s[i + 1] == '[' {
            lemma_csi_end_shift(x, s, i + 2);
            lemma_csi_end(s, i + 2);
            let e = csi_end(s, i + 2);
            if i < e <= s.len() {
                lemma_strip_shift(x, s, e);
            }
        } else {
            lemma_strip_shift(x, s, i + 1);
        }
    }
}

proof fn lemma_csi_params(w: Seq<char>, p: Seq<char>, k: int)
    requires
        0 <= k <= p.len(),
        w.len() > p.len() + 2,
        forall|m: int| 0 <= m < p.len() ==> w[m + 2] == p[m],
        forall|m: int| 0 <= m < p.len() ==> !csi_final(#[trigger] p[m]),
        csi_final(w[p.len() + 2int]),
    ensures
        csi_end(w, k + 2) == p.len() + 3,
    decreases p.len() - k,
{
    if k < p.len() {
        assert(w[k + 2] == p[k]);
        lemma_csi_params(w, p, k + 1);
    }
}

/// A CSI escape sequence is dropped whole, whatever its final byte: ESC `[`,
/// parameters, then the first character in `@`..`~` (`m`, `K`, `A`, `H`,
/// ...) end it, and the text after it is kept as it would be alone.
pub proof fn escape_sequence_is_dropped(p: Seq<char>, c: char, s: Seq<char>)
    requires
        forall|m: int| 0 <= m < p.len() ==> !(0x40 <= (#[trigger] p[m] as u32) <= 0x7e),
        0x40 <= (c as u32) <= 0x7e,
    ensures
        strip_from(seq!['\u{1b}', '['] + p + seq![c] + s, 0) == strip_from(s, 0),
{
    let x = seq!['\u{1b}', '['] + p + seq![c];
    let w = x + s;
    assert(w[0] == '\u{1b}');
    assert(w[1] == '[');
    assert forall|m: int| 0 <= m < p.len() implies w[m + 2] == p[m] by {
        assert(x[m + 2] == p[m]);
    }
    assert(w[p.len() + 2int] == c);
    lemma_csi_params(w, p, 0);
    lemma_strip_shift(x, s, 0);
    assert(seq!['\u{1b}', '['] + p + seq![c] + s == w);
}

/// A character other than ESC is kept, in front of the rest stripped.
pub proof fn plain_character_is_kept(c: char, s: Seq<char>)
    requires
        c != '\u{1b}',
    ensures
        strip_from(seq![c] + s, 0) == seq![c] + strip_from(s, 0),
{
    lemma_strip_shift(seq![c], s, 0);
    assert((seq![c] + s)[0] == c);
}

/// Text without ESC comes through unchanged.
pub proof fn text_without_escapes_is_unchanged(s: Seq<char>)
    requires
        !s.contains('\u{1b}'),
    ensures
        strip_from(s, 0) == s,
    decreases s.len(),
{
    if s.len() > 0 {
        let c = s[0];
        let rest = s.drop_first();
        assert(s =~= seq![c] + rest);
        if rest.contains('\u{1b}') {
            let k = choose|k: int| 0 <= k < rest.len() && rest[k] == '\u{1b}';
            assert(s[k + 1] == '\u{1b}');
        }
        text_without_escapes_is_unchanged(rest);
        plain_character_is_kept(c, rest);
    }
}

/// `input` without CSI escape sequences: colors, cursor moves and the like.
pub fn strip_ansi(input: &str) -> (r: String)
    ensures
        r@ == strip_from(input@, 0),
{
    let v = crate::text::chars_of(input);
    let n = v.len();
    let mut out = String::new();
    let mut i: usize = 0;
    while i < n
        invariant
            v@ == input@,
            n == v@.len(),
            i <= n,
            out@ + strip_from(v@, i as int) == strip_from(v@, 0),
        decreases n - i,
    {
        if v[i] == '\u{1b}' && i + 1 < n && v[i + 1] == '[' {
            let mut j: usize = i + 2;
            proof {
                lemma_csi_end(v@, i + 2);
            }
            while j < n && !(0x40 <= (v[j] as u32) && (v[j] as u32) <= 0x7e)
                invariant
                    n == v@.len(),
                    i + 2 <= j <= n,
                    csi_end(v@, i + 2) == csi_end(v@, j as int),
                decreases n - j,
            {
                j = j + 1;
            }
            if j < n {
                j = j + 1;
            }
            assert(j as int == csi_end(v@, i + 2));
            i = j;
        } else {
            let ghost before = out@;
            crate::text::push_char(&mut out, v[i]);
            assert(out@ + strip_from(v@, i + 1) =~= before + strip_from(v@, i as int));
            i = i + 1;
        }
    }
    assert(out@ =~= strip_from(v@, 0));
    out
}

/// The capture of one output stream so far.
pub struct Capture {
    /// The first bytes of the stream, up to the in-memory limit.
    pub kept: Vec<u8>,
    /// Every byte the process emitted.
    pub total_bytes: u64,
    /// Some byte went past the in-memory limit.
    pub truncated: bool,
}

/// What to do with a chunk's bytes beyond the in-memory prefix.
#[derive(Debug, PartialEq, Eq)]
pub enum Overflow {
    /// Nothing is beyond the limit.
    Nothing,
    /// The limit was crossed in this chunk: open the spill file, write the
    /// kept prefix, then the chunk from this offset on.
    StartSpill(usize),
    /// Already spilling: append the whole chunk.
    Append,
}

impl Capture {
    pub open spec fn inv(&self) -> bool {
        &&& self.kept@.len() <= MAX_STREAM_PAYLOAD_BYTES
        &&& self.truncated ==> self.kept@.len() == MAX_STREAM_PAYLOAD_BYTES
        &&& !self.truncated ==> self.kept@.len() == self.total_bytes
    }

    pub fn new() -> (r: Self)
        ensures
            r.inv(),
            r.kept@.len() == 0,
            r.total_bytes == 0,
            !r.truncated,
    {
        Capture { kept: Vec::new(), total_bytes: 0, truncated: false }
    }

    /// Takes in one chunk read from the stream: keeps what fits within the
    /// limit, and says what becomes of the rest.
    pub fn accept(&mut self, chunk: &[u8]) -> (r: Overflow)
        requires
            old(self).inv(),
            old(self).total_bytes + chunk@.len() <= u64::MAX,
        ensures
            final(self).inv(),
            final(self).total_bytes == old(self).total_bytes + chunk@.len(),
            ({
                let room = MAX_STREAM_PAYLOAD_BYTES - old(self).kept@.len();
                if old(self).truncated {
                    &&& final(self).kept@ == old(self).kept@
                    &&& final(self).truncated
                    &&& r == Overflow::Append
                } else if chunk@.len() <= room {
                    &&& final(self).kept@ == old(self).kept@ + chunk@
                    &&& !final(self).truncated
                    &&& r == Overflow::Nothing
                } else {
                    &&& final(self).kept@ == old(self).kept@ + chunk@.subrange(0, room)
                    &&& final(self).truncated
                    &&& r == Overflow::StartSpill(room as usize)
                }
            }),
    {
        self.total_bytes = self.total_bytes + chunk.len() as u64;
        if self.truncated {
            return Overflow::Append;
        }
        let room = MAX_STREAM_PAYLOAD_BYTES - self.kept.len();
        let take = if chunk.len() < room { chunk.len() } else { room };
        let ghost k0 = self.kept@;
        let mut i: usize = 0;
        while i < take
            invariant
                take <= chunk@.len(),
                take <= MAX_STREAM_PAYLOAD_BYTES - k0.len(),
                take == (if chunk@.len() < MAX_STREAM_PAYLOAD_BYTES - k0.len() { chunk@.len() as int } else { MAX_STREAM_PAYLOAD_BYTES - k0.len() }),
                k0 == old(self).kept@,
                k0.len() <= MAX_STREAM_PAYLOAD_BYTES,
                self.total_bytes == old(self).total_bytes + chunk@.len(),
                !old(self).truncated,
                !self.truncated,
                old(self).inv(),
                i <= take,
                self.kept@ == k0 + chunk@.subrange(0, i as int),
            decreases take - i,
        {
            self.kept.push(chunk[i]);
            i = i + 1;
            assert(self.kept@ =~= k0 + chunk@.subrange(0, i as int));
        }
        if take < chunk.len() {
            self.truncated = true;
            Overflow::StartSpill(take)
        } else {
            assert(chunk@.subrange(0, take as int) =~= chunk@);
            Overflow::Nothing
        }
    }
}

/// The in-memory prefix of a stream: the bytes of the chunks, up to the
/// limit.
pub open spec fn prefix_of(bytes: Seq<u8>) -> Seq<u8> {
    if bytes.len() <= MAX_STREAM_PAYLOAD_BYTES { bytes } else { bytes.subrange(0, MAX_STREAM_PAYLOAD_BYTES as int) }
}

/// Whatever the chunks, the capture keeps exactly the first bytes of the
/// stream up to the limit, counts every byte, and is truncated exactly when
/// the stream went past the limit.
pub proof fn capture_keeps_prefix(kept: Seq<u8>, total: nat, truncated: bool, seen: Seq<u8>, chunk: Seq<u8>)
    requires
        kept == prefix_of(seen),
        total == seen.len(),
        truncated == (seen.len() > MAX_STREAM_PAYLOAD_BYTES),
    ensures
        ({
            let room = MAX_STREAM_PAYLOAD_BYTES - kept.len();
            let next = if truncated {
                kept
            } else if chunk.len() <= room {
                kept + chunk
            } else {
                kept + chunk.subrange(0, room)
            };
            &&& next == prefix_of(seen + chunk)
            &&& (truncated || chunk.len() > room) == ((seen + chunk).len() > MAX_STREAM_PAYLOAD_BYTES)
        }),
{
    let all = seen + chunk;
    let room = MAX_STREAM_PAYLOAD_BYTES - kept.len();
    if truncated {
        assert(prefix_of(all) =~= kept);
    } else if chunk.len() <= room {
        assert(kept + chunk =~= all);
    } else {
        assert(kept + chunk.subrange(0, room) =~= all.subrange(0, MAX_STREAM_PAYLOAD_BYTES as int));
    }
}

struct SessionProcesses {
    id: u128,
    pids: Vec<i32>,
}

spec fn sp_key(s: SessionProcesses) -> u128 {
    s.id
}

spec fn sp_pids(s: SessionProcesses) -> Seq<i32> {
    s.pids@
}

/// The process groups each session has running.
pub struct ProcessTable {
    sessions: Vec<SessionProcesses>,
}

impl View for ProcessTable {
    type V = Map<u128, Seq<i32>>;

    closed spec fn view(&self) -> Map<u128, Seq<i32>> {
        table(self.sessions@, |s: SessionProcesses| sp_key(s), |s: SessionProcesses| sp_pids(s))
    }
}

impl ProcessTable {
    /// Keys are distinct and no session is listed without a process.
    pub closed spec fn wf(&self) -> bool {
        &&& keys_unique(self.sessions@, |s: SessionProcesses| sp_key(s))
        &&& forall|i: int| 0 <= i < self.sessions@.len() ==> (#[trigger] self.sessions@[i]).pids@.len() > 0
    }

    pub fn new() -> (r: Self)
        ensures
            r.wf(),
            r@ == Map::<u128, Seq<i32>>::empty(),
    {
        let r = ProcessTable { sessions: Vec::new() };
        assert(r@ =~= Map::<u128, Seq<i32>>::empty());
        r
    }

    fn find(&self, id: u128) -> (r: Option<usize>)
        requires
            self.wf(),
        ensures
            match r {
                Some(i) => i < self.sessions@.len() && self.sessions@[i as int].id == id && self@.contains_key(id)
                    && self@[id] == self.sessions@[i as int].pids@,
                None => !self@.contains_key(id),
            },
    {
        let n = self.sessions.len();
        let mut i: usize = 0;
        while i < n
            invariant
                self.wf(),
                n == self.sessions@.len(),
                i <= n,
                forall|j: int| 0 <= j < i ==> #[trigger] sp_key(self.sessions@[j]) != id,
            decreases n - i,
        {
            if self.sessions[i].id == id {
                proof {
                    lemma_table_at(self.sessions@, |s: SessionProcesses| sp_key(s), |s: SessionProcesses| sp_pids(s), i as int);
                }
                return Some(i);
            }
            i = i + 1;
        }
        proof {
            lemma_table_absent(self.sessions@, |s: SessionProcesses| sp_key(s), |s: SessionProcesses| sp_pids(s), id);
        }
        None
    }

    /// A process group was spawned for the session.
    pub fn add(&mut self, session_id: u128, pid: i32)
        requires
            old(self).wf(),
        ensures
            final(self).wf(),
            final(self)@ == old(self)@.insert(
                session_id,
                if old(self)@.contains_key(session_id) { old(self)@[session_id].push(pid) } else { seq![pid] },
            ),
    {
        match self.find(session_id) {
            Some(i) => {
                let ghost s0 = self.sessions@;
                let mut e = self.sessions.remove(i);
                e.pids.push(pid);
                self.sessions.insert(i, e);
                proof {
                    assert(self.sessions@ =~= s0.update(i as int, e));
                    lemma_table_update(s0, |s: SessionProcesses| sp_key(s), |s: SessionProcesses| sp_pids(s), i as int, e);
                    assert forall|j: int| 0 <= j < self.sessions@.len() implies (#[trigger] self.sessions@[j]).pids@.len() > 0 by {
                        if j != i {
                            assert(self.sessions@[j] == s0[j]);
                        }
                    }
                }
            },
            None => {
                let mut pids: Vec<i32> = Vec::new();
                pids.push(pid);
                let e = SessionProcesses { id: session_id, pids };
                let ghost s0 = self.sessions@;
                self.sessions.push(e);
                proof {
                    assert(pids@ =~= seq![pid]);
                    lemma_table_push(s0, |s: SessionProcesses| sp_key(s), |s: SessionProcesses| sp_pids(s), e);
                    assert forall|j: int| 0 <= j < self.sessions@.len() implies (#[trigger] self.sessions@[j]).pids@.len() > 0 by {
                        if j < s0.len() {
                            assert(self.sessions@[j] == s0[j]);
                        }
                    }
                }
            },
        }
    }

    /// A process group finished: it leaves its session, and a session left
    /// with none leaves the table.
    pub fn remove_pid(&mut self, session_id: u128, pid: i32)
        requires
            old(self).wf(),
        ensures
            final(self).wf(),
            !old(self)@.contains_key(session_id) ==> final(self)@ == old(self)@,
            old(self)@.contains_key(session_id) ==> ({
                let rest = old(self)@[session_id].filter(|p: i32| p != pid);
                final(self)@ == if rest.len() == 0 {
                    old(self)@.remove(session_id)
                } else {
                    old(self)@.insert(session_id, rest)
                }
            }),
    {
        let i = match self.find(session_id) {
            Some(i) => i,
            None => return,
        };
        let ghost s0 = self.sessions@;
        let mut e = self.sessions.remove(i);
        let ghost p0 = e.pids@;
        let ghost keep = |p: i32| p != pid;
        let mut rest: Vec<i32> = Vec::new();
        let n = e.pids.len();
        let mut k: usize = 0;
        while k < n
            invariant
                n == p0.len(),
                p0 == e.pids@,
                k <= n,
                keep == (|p: i32| p != pid),
                rest@ == p0.take(k as int).filter(keep),
            decreases n - k,
        {
            proof {
                assert(p0.take(k + 1) =~= p0.take(k as int).push(p0[k as int]));
                p0.take(k as int).lemma_filter_push(p0[k as int], keep);
            }
            if e.pids[k] != pid {
                rest.push(e.pids[k]);
            }
            k = k + 1;
        }
        assert(p0.take(n as int) =~= p0);
        if rest.len() == 0 {
            proof {
                let s1 = s0.remove(i as int);
                assert(self.sessions@ =~= s1);
                lemma_table_remove(s0, |s: SessionProcesses| sp_key(s), |s: SessionProcesses| sp_pids(s), i as int);
                assert forall|j: int| 0 <= j < self.sessions@.len() implies (#[trigger] self.sessions@[j]).pids@.len() > 0 by {
                    assert(self.sessions@[j] == s0[if j < i { j } else { j + 1 }]);
                }
            }
        } else {
            e.pids = rest;
            self.sessions.insert(i, e);
            proof {
                assert(self.sessions@ =~= s0.update(i as int, e));
                lemma_table_update(s0, |s: SessionProcesses| sp_key(s), |s: SessionProcesses| sp_pids(s), i as int, e);
                assert forall|j: int| 0 <= j < self.sessions@.len() implies (#[trigger] self.sessions@[j]).pids@.len() > 0 by {
                    if j != i {
                        assert(self.sessions@[j] == s0[j]);
                    }
                }
            }
        }
    }

    /// Cancelling a session: its process groups, all to be killed; the
    /// session leaves the table.
    pub fn cancel_session(&mut self, session_id: u128) -> (r: Vec<i32>)
        requires
            old(self).wf(),
        ensures
            final(self).wf(),
            final(self)@ == old(self)@.remove(session_id),
            r@ == if old(self)@.contains_key(session_id) { old(self)@[session_id] } else { Seq::empty() },
    {
        match self.find(session_id) {
            Some(i) => {
                let ghost s0 = self.sessions@;
                let e = self.sessions.remove(i);
                proof {
                    lemma_table_remove(s0, |s: SessionProcesses| sp_key(s), |s: SessionProcesses| sp_pids(s), i as int);
                    assert forall|j: int| 0 <= j < self.sessions@.len() implies (#[trigger] self.sessions@[j]).pids@.len() > 0 by {
                        assert(self.sessions@[j] == s0[if j < i { j } else { j + 1 }]);
                    }
                }
                e.pids
            },
            None => {
                assert(self@.remove(session_id) =~= self@);
                Vec::new()
            },
        }
    }
}

/// The text that `String::from_utf8_lossy` makes of bytes, invalid
/// sequences replaced by U+FFFD.
pub uninterp spec fn lossy_utf8(bytes: Seq<u8>) -> Seq<char>;

/// Calls `String::from_utf8_lossy`: the text is a function of the bytes
/// alone, and valid UTF-8 comes back as the text it encodes.
#[verifier::external_body]
fn decode_lossy(bytes: &[u8]) -> (r: String)
    ensures
        r@ == lossy_utf8(bytes@),
        valid_utf8(bytes@) ==> r@ == decode_utf8(bytes@),
{
    String::from_utf8_lossy(bytes).into_owned()
}

/// The text of a captured stream: its kept bytes decoded (invalid
/// sequences replaced), without ANSI escapes, and cut to the longest prefix
/// of whole characters within the in-memory limit.
pub open spec fn captured_text(kept: Seq<u8>) -> Seq<char> {
    let t = strip_from(lossy_utf8(kept), 0);
    t.take(fit_len(t, MAX_STREAM_PAYLOAD_BYTES as nat) as int)
}

impl Capture {
    /// The stream as reported: its text (see [`captured_text`]), every byte
    /// counted, whether it went past the limit, and where its whole output
    /// was spilled, if it was.
    pub fn finish(self, spill_path: Option<String>) -> (r: CapturedStream)
        ensures
            r.text@ == captured_text(self.kept@),
            utf8_len(r.text@) <= MAX_STREAM_PAYLOAD_BYTES,
            r.total_bytes == self.total_bytes,
            r.truncated == self.truncated,
            r.spill_path == spill_path,
    {
        let decoded = decode_lossy(self.kept.as_slice());
        let stripped = strip_ansi(decoded.as_str());
        let v = crate::text::chars_of(stripped.as_str());
        let end = fit_end(v.as_slice(), MAX_STREAM_PAYLOAD_BYTES);
        let kept = vstd::slice::slice_subrange(v.as_slice(), 0, end);
        proof {
            lemma_fit_len_fits(v@, MAX_STREAM_PAYLOAD_BYTES as nat);
        }
        assert(kept@ =~= captured_text(self.kept@));
        CapturedStream {
            text: crate::text::string_of(kept),
            total_bytes: self.total_bytes,
            truncated: self.truncated,
            spill_path,
        }
    }
}

} // verus!
