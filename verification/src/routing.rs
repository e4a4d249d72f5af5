//! The state of a request path while it is matched against routes, and
//! the control of the flow through a list of handlers.

use std::borrow::Cow;
use vstd::hash_map::StringHashMap;
use vstd::prelude::*;
use vstd::std_specs::iter::IteratorSpec;
use vstd::string::*;
use vstd::utf8::{
    decode_utf8, encode_utf8, encode_utf8_decode_utf8, encode_utf8_valid_utf8, is_ascii_chars,
    is_ascii_chars_encode_utf8, is_ascii_chars_nat_bound, is_char_boundary,
    is_char_boundary_iff_not_is_continuation_byte, is_char_boundary_start_end_of_seq,
};
use crate::text::{slice_view, strs, text_values};

verus! {

/// The text that a percent-encoded text stands for: every `%` with two
/// hexadecimal digits behind it is replaced by the byte that they name,
/// and bytes that are not UTF-8 are replaced by U+FFFD.
pub uninterp spec fn percent_decoded(text: Seq<char>) -> Seq<char>;

/// Calls `percent_encoding::percent_decode_str` and `decode_utf8_lossy` on
/// its result. Trusted: the string returned is the percent-decoded text
/// of `path`, which depends on `path` alone. A text that is not empty
/// decodes to a text that is not empty: every byte, or every `%` with its
/// two digits, gives one byte, and bytes are replaced, never dropped.
#[verifier::external_body]
fn decode_url_path_safely(path: &str) -> (out: String)
    ensures
        out@ == percent_decoded(path@),
        path@.len() > 0 ==> out@.len() > 0,
{
    percent_encoding::percent_decode_str(path).decode_utf8_lossy().to_string()
}

/// The segments of a path: its maximal runs of characters other than `/`,
/// in their order. Slashes at either end and repeated slashes make no
/// segment.
pub open spec fn segments(path: Seq<char>) -> Seq<Seq<char>>
    decreases path.len(),
{
    if path.len() == 0 {
        Seq::empty()
    } else {
        let before = segments(path.drop_last());
        if path.last() == '/' {
            before
        } else if path.len() >= 2 && path[path.len() - 2] != '/' {
            before.drop_last().push(before.last().push(path.last()))
        } else {
            before.push(seq![path.last()])
        }
    }
}

/// The percent-decoded texts of a list of segments.
pub open spec fn decoded(raw: Seq<Seq<char>>) -> Seq<Seq<char>> {
    Seq::new(raw.len(), |i: int| percent_decoded(raw[i]))
}

/// The text that begins at the byte `col` of `part`.
pub open spec fn rest_from(part: Seq<char>, col: int) -> Seq<char> {
    decode_utf8(encode_utf8(part).skip(col))
}

/// The texts of `parts` joined by `/`.
pub open spec fn joined(parts: Seq<Seq<char>>) -> Seq<char>
    decreases parts.len(),
{
    if parts.len() == 0 {
        Seq::empty()
    } else if parts.len() == 1 {
        parts[0]
    } else {
        joined(parts.drop_last()) + seq!['/'] + parts.last()
    }
}

/// Where the cursor stands after it went `steps` bytes forward from the
/// beginning of the part `row`: it passes every part that is not longer
/// than the steps that are left, and stops inside the first that is. Past
/// the last part it keeps the column `col`.
pub open spec fn walk(lens: Seq<nat>, row: int, steps: int, col: int) -> (int, int)
    decreases lens.len() - row,
{
    if row < 0 || row >= lens.len() {
        (row, col)
    } else if lens[row] > steps {
        (row, steps)
    } else {
        walk(lens, row + 1, steps - lens[row], 0)
    }
}

/// The lengths in bytes of the parts.
pub open spec fn byte_lens(parts: Seq<Seq<char>>) -> Seq<nat> {
    Seq::new(parts.len(), |i: int| encode_utf8(parts[i]).len())
}

/// What a path state holds.
pub struct PathStateView {
    /// The decoded segments of the path.
    pub parts: Seq<Seq<char>>,
    /// The part at which matching stands, and the byte within it.
    pub cursor: (nat, nat),
    /// The parameters that were captured so far.
    pub params: Map<Seq<char>, Seq<char>>,
}

impl PathStateView {
    /// Whether every part was consumed.
    pub open spec fn ended(self) -> bool {
        self.cursor.0 >= self.parts.len()
    }

    /// Whether the cursor, where it stands inside a part, stands between
    /// two characters of it.
    pub open spec fn on_char_boundary(self) -> bool {
        (self.cursor.0 < self.parts.len() && self.cursor.1 < encode_utf8(
            self.parts[self.cursor.0 as int],
        ).len()) ==> is_char_boundary(
            encode_utf8(self.parts[self.cursor.0 as int]),
            self.cursor.1 as int,
        )
    }

    /// The rest of the part at the cursor; none if the cursor is at the
    /// end of the part or past the last part.
    pub open spec fn part_rest(self) -> Option<Seq<char>> {
        if self.cursor.0 < self.parts.len() && self.cursor.1 < encode_utf8(
            self.parts[self.cursor.0 as int],
        ).len() {
            Some(rest_from(self.parts[self.cursor.0 as int], self.cursor.1 as int))
        } else {
            None
        }
    }

    /// What is matched next: the rest of the part at the cursor, or, at
    /// the end of that part, the whole next part.
    pub open spec fn pick(self) -> Option<Seq<char>> {
        if self.cursor.0 >= self.parts.len() {
            None
        } else if self.cursor.1 < encode_utf8(self.parts[self.cursor.0 as int]).len() {
            Some(rest_from(self.parts[self.cursor.0 as int], self.cursor.1 as int))
        } else if self.cursor.0 + 1 < self.parts.len() {
            Some(self.parts[self.cursor.0 as int + 1])
        } else {
            None
        }
    }

    /// What is picked, a slash, and the parts behind the part at the
    /// cursor joined by slashes.
    pub open spec fn all_rest(self) -> Option<Seq<char>> {
        match self.pick() {
            Some(picked) => Some(
                picked + seq!['/'] + joined(
                    self.parts.skip(self.cursor.0 as int + 1),
                ),
            ),
            None => None,
        }
    }

    /// This state with the cursor `steps` bytes further.
    pub open spec fn forward(self, steps: int) -> PathStateView {
        let at = walk(
            byte_lens(self.parts),
            self.cursor.0 as int,
            steps + self.cursor.1,
            self.cursor.1 as int,
        );
        PathStateView { cursor: (at.0 as nat, at.1 as nat), ..self }
    }
}

/// A cursor at the first byte of a part stands between two characters.
pub proof fn lemma_part_start_on_boundary(state: PathStateView)
    requires
        state.cursor.1 == 0,
    ensures
        state.on_char_boundary(),
{
    if state.cursor.0 < state.parts.len() {
        let bytes = encode_utf8(state.parts[state.cursor.0 as int]);
        encode_utf8_valid_utf8(state.parts[state.cursor.0 as int]);
        is_char_boundary_start_end_of_seq(bytes);
    }
}

/// In a path whose parts are ASCII every byte is a character, so that the
/// cursor always stands between two characters.
pub proof fn lemma_ascii_on_boundary(state: PathStateView)
    requires
        forall|i: int| 0 <= i < state.parts.len() ==> is_ascii_chars(#[trigger] state.parts[i]),
    ensures
        state.on_char_boundary(),
{
    if state.cursor.0 < state.parts.len() {
        let part = state.parts[state.cursor.0 as int];
        let bytes = encode_utf8(part);
        if state.cursor.1 < bytes.len() {
            encode_utf8_valid_utf8(part);
            is_ascii_chars_encode_utf8(part);
            is_ascii_chars_nat_bound(part);
            let at = state.cursor.1 as int;
            assert(part[at] as u8 == bytes[at]);
            assert((part[at] as nat) < 128);
            is_char_boundary_iff_not_is_continuation_byte(bytes, at);
        }
    }
}

/// The view of an optional string that is borrowed or owned.
pub open spec fn cow_view(text: Option<Cow<'_, str>>) -> Option<Seq<char>> {
    match text {
        Some(t) => Some(t@),
        None => None,
    }
}

/// The state of a request path during routing: its decoded segments, a
/// cursor, and the parameters captured so far.
pub struct PathState {
    pub(crate) parts: Vec<String>,
    pub(crate) cursor: (usize, usize),
    pub(crate) params: StringHashMap<String>,
}

impl View for PathState {
    type V = PathStateView;

    closed spec fn view(&self) -> PathStateView {
        PathStateView {
            parts: strs(self.parts@),
            cursor: (self.cursor.0 as nat, self.cursor.1 as nat),
            params: text_values(self.params@),
        }
    }
}

/// The segment that is being read, if it is not empty.
pub open spec fn pending(path: Seq<char>, start: int, i: int) -> Seq<Seq<char>> {
    if start < i {
        seq![path.subrange(start, i)]
    } else {
        Seq::empty()
    }
}

/// How the segments grow when one more character is read.
proof fn lemma_segments_step(path: Seq<char>, done: Seq<Seq<char>>, start: int, i: int)
    requires
        0 <= start <= i < path.len(),
        segments(path.take(i)) == done + pending(path, start, i),
        forall|k: int| start <= k < i ==> path[k] != '/',
        start > 0 ==> path[start - 1] == '/',
    ensures
        path[i] == '/' ==> segments(path.take(i + 1)) == done + pending(path, start, i),
        path[i] != '/' ==> segments(path.take(i + 1)) == done + pending(path, start, i + 1),
{
    let upto = path.take(i + 1);
    assert(upto.drop_last() == path.take(i));
    assert(upto.last() == path[i]);
    let before = segments(path.take(i));
    if path[i] != '/' {
        if upto.len() >= 2 && upto[upto.len() - 2] != '/' {
            assert(upto[upto.len() - 2] == path[i - 1]);
            assert(start < i);
            assert(before.last() == path.subrange(start, i));
            assert(before.drop_last() =~= done);
            assert(path.subrange(start, i).push(path[i]) =~= path.subrange(start, i + 1));
            assert(before.drop_last().push(before.last().push(path[i])) =~= done + pending(
                path,
                start,
                i + 1,
            ));
        } else {
            if i > 0 {
                assert(upto[upto.len() - 2] == path[i - 1]);
            }
            assert(start == i);
            assert(seq![path[i]] =~= path.subrange(start, i + 1));
            assert(before.push(seq![path[i]]) =~= done + pending(path, start, i + 1));
        }
    }
}

/// Appending the decoded text of a segment keeps a list of parts the
/// decoded list of the segments.
proof fn lemma_decoded_push(parts: Seq<String>, raw: Seq<Seq<char>>, part: String, piece: Seq<char>)
    requires
        strs(parts) == decoded(raw),
        part@ == percent_decoded(piece),
    ensures
        strs(parts.push(part)) == decoded(raw.push(piece)),
{
    assert(strs(parts).len() == parts.len());
    assert(decoded(raw).len() == raw.len());
    assert(parts.len() == raw.len());
    assert forall|j: int| 0 <= j < parts.len() implies strs(parts.push(part))[j] == decoded(
        raw.push(piece),
    )[j] by {
        assert(strs(parts)[j] == decoded(raw)[j]);
    }
    assert(strs(parts.push(part)) =~= decoded(raw.push(piece)));
}

impl PathState {
    /// The state at the beginning of the path `url_path`: its segments,
    /// percent-decoded, the cursor at the first byte of the first, and no
    /// parameters.
    pub fn new(url_path: &str) -> (state: PathState)
        ensures
            state@.parts == decoded(segments(url_path@)),
            forall|k: int| 0 <= k < state@.parts.len() ==> (#[trigger] state@.parts[k]).len() > 0,
            state@.cursor == (0nat, 0nat),
            state@.params == Map::<Seq<char>, Seq<char>>::empty(),
            state@.on_char_boundary(),
    {
        let n: usize = url_path.unicode_len();
        let mut parts: Vec<String> = Vec::new();
        let ghost mut raw: Seq<Seq<char>> = Seq::empty();
        let mut start: usize = 0;
        let mut i: usize = 0;
        let mut chars = url_path.chars();
        assert(segments(url_path@.take(0)) =~= raw + pending(url_path@, 0, 0));
        assert(strs(parts@) =~= decoded(raw));
        assert(url_path@.skip(0) == url_path@);
        loop
            invariant
                n == url_path@.len(),
                start <= i <= n,
                chars.obeys_prophetic_iter_laws(),
                chars.remaining() == url_path@.skip(i as int),
                segments(url_path@.take(i as int)) == raw + pending(
                    url_path@,
                    start as int,
                    i as int,
                ),
                forall|k: int| start <= k < i ==> url_path@[k] != '/',
                start > 0 ==> url_path@[start - 1] == '/',
                strs(parts@) == decoded(raw),
                forall|k: int| 0 <= k < parts@.len() ==> (#[trigger] parts@[k])@.len() > 0,
            ensures
                i == n,
            decreases n - i,
        {
            let ghost before = chars.remaining();
            let next = chars.next();
            let c = match next {
                Some(c) => c,
                None => {
                    break ;
                },
            };
            proof {
                assert(before.len() > 0);
                assert(c == url_path@[i as int]);
                assert(url_path@.skip(i as int).drop_first() == url_path@.skip(i + 1));
                lemma_segments_step(url_path@, raw, start as int, i as int);
            }
            if c == '/' {
                if start < i {
                    let piece = url_path.substring_char(start, i);
                    let ghost parts_before = parts@;
                    let ghost raw_before = raw;
                    parts.push(decode_url_path_safely(piece));
                    proof {
                        raw = raw.push(piece@);
                        lemma_decoded_push(parts_before, raw_before, parts@.last(), piece@);
                    }
                }
                start = i + 1;
                assert(segments(url_path@.take(i + 1)) =~= raw + pending(
                    url_path@,
                    start as int,
                    i + 1,
                ));
            }
            i += 1;
        }
        assert(url_path@.take(n as int) == url_path@);
        if start < n {
            let piece = url_path.substring_char(start, n);
            let ghost parts_before = parts@;
            let ghost raw_before = raw;
            parts.push(decode_url_path_safely(piece));
            proof {
                raw = raw.push(piece@);
                lemma_decoded_push(parts_before, raw_before, parts@.last(), piece@);
                assert(segments(url_path@) =~= raw);
            }
        } else {
            assert(segments(url_path@) =~= raw);
        }
        let state = PathState { parts, cursor: (0, 0), params: StringHashMap::new() };
        proof {
            assert(state@.params =~= Map::<Seq<char>, Seq<char>>::empty());
            lemma_part_start_on_boundary(state@);
        }
        state
    }

    /// What is matched next: the rest of the part at the cursor, or, at
    /// the end of that part, the whole next part.
    pub fn pick(&self) -> (res: Option<&str>)
        requires
            self@.on_char_boundary(),
        ensures
            slice_view(res) == self@.pick(),
    {
        if self.cursor.0 >= self.parts.len() {
            return None;
        }
        let part = self.parts[self.cursor.0].as_str();
        if self.cursor.1 >= part.as_bytes().len() {
            let row = self.cursor.0 + 1;
            if row < self.parts.len() {
                Some(self.parts[row].as_str())
            } else {
                None
            }
        } else {
            let rest = part.split_at(self.cursor.1).1;
            proof {
                encode_utf8_decode_utf8(rest@);
                assert(rest.spec_bytes() == encode_utf8(part@).skip(self.cursor.1 as int));
            }
            Some(rest)
        }
    }

    /// The rest of the part at the cursor; none if the cursor is at the
    /// end of the part or past the last part.
    pub fn part_rest(&self) -> (res: Option<&str>)
        requires
            self@.on_char_boundary(),
        ensures
            slice_view(res) == self@.part_rest(),
    {
        if self.cursor.0 >= self.parts.len() {
            return None;
        }
        let part = self.parts[self.cursor.0].as_str();
        if self.cursor.1 >= part.as_bytes().len() {
            None
        } else {
            let rest = part.split_at(self.cursor.1).1;
            proof {
                encode_utf8_decode_utf8(rest@);
                assert(rest.spec_bytes() == encode_utf8(part@).skip(self.cursor.1 as int));
            }
            Some(rest)
        }
    }

    /// What is picked, followed by a slash and by the parts behind the
    /// part at the cursor, joined by slashes.
    pub fn all_rest(&self) -> (res: Option<Cow<'_, str>>)
        requires
            self@.on_char_boundary(),
        ensures
            cow_view(res) == self@.all_rest(),
    {
        match self.pick() {
            Some(picked) => {
                let mut text = String::from_str(picked);
                text.append("/");
                proof {
                    reveal_strlit("/");
                    assert("/"@ =~= seq!['/']);
                }
                let n: usize = self.parts.len();
                let first: usize = self.cursor.0 + 1;
                let mut i: usize = first;
                let ghost tail = strs(self.parts@).skip(first as int);
                assert(joined(tail.take(0)) =~= Seq::<char>::empty());
                assert(text@ =~= picked@ + seq!['/'] + joined(tail.take(0)));
                while i < n
                    invariant
                        n == self.parts@.len(),
                        first <= i <= n,
                        tail == strs(self.parts@).skip(first as int),
                        text@ == picked@ + seq!['/'] + joined(tail.take(i - first)),
                    decreases n - i,
                {
                    proof {
                        let upto = tail.take(i - first + 1);
                        assert(upto.drop_last() == tail.take(i - first));
                        assert(upto.last() == self.parts@[i as int]@);
                        reveal_strlit("/");
                        assert("/"@ =~= seq!['/']);
                    }
                    if i > first {
                        text.append("/");
                    }
                    text.append(self.parts[i].as_str());
                    proof {
                        let upto = tail.take(i - first + 1);
                        if i > first {
                            assert(joined(upto) == joined(upto.drop_last()) + seq!['/']
                                + upto.last());
                            assert(text@ =~= picked@ + seq!['/'] + joined(upto));
                        } else {
                            assert(joined(upto) == upto[0]);
                            assert(joined(tail.take(0)) =~= Seq::<char>::empty());
                            assert(text@ =~= picked@ + seq!['/'] + joined(upto));
                        }
                    }
                    i += 1;
                }
                assert(tail.take(n - first) == tail);
                Some(Cow::Owned(text))
            },
            None => None,
        }
    }

    /// Moves the cursor `steps` bytes forward. It passes every part that
    /// is not longer than the steps that are left, and stops inside the
    /// first that is, or behind the last part.
    pub fn forward(&mut self, steps: usize)
        requires
            steps + old(self)@.cursor.1 <= usize::MAX,
        ensures
            final(self)@ == old(self)@.forward(steps as int),
    {
        let mut left: usize = steps + self.cursor.1;
        let ghost lens = byte_lens(strs(self.parts@));
        let n: usize = self.parts.len();
        while self.cursor.0 < n
            invariant
                n == self.parts@.len(),
                self.parts == old(self).parts,
                self.params == old(self).params,
                lens == byte_lens(strs(self.parts@)),
                walk(lens, self.cursor.0 as int, left as int, self.cursor.1 as int) == walk(
                    lens,
                    old(self).cursor.0 as int,
                    steps + old(self).cursor.1,
                    old(self).cursor.1 as int,
                ),
            decreases n - self.cursor.0,
        {
            let len: usize = self.parts[self.cursor.0].as_str().as_bytes().len();
            if len > left {
                self.cursor.1 = left;
                return ;
            } else {
                left -= len;
                self.cursor = (self.cursor.0 + 1, 0);
            }
        }
    }

    /// Whether every part was consumed.
    pub fn ended(&self) -> (res: bool)
        ensures
            res == self@.ended(),
    {
        self.cursor.0 >= self.parts.len()
    }

    /// Whether the cursor, where it stands inside a part, stands between
    /// two characters of it, so that the rest of the part is a text.
    pub fn on_char_boundary(&self) -> (res: bool)
        ensures
            res == self@.on_char_boundary(),
    {
        if self.cursor.0 < self.parts.len() {
            let part = self.parts[self.cursor.0].as_str();
            if self.cursor.1 < part.as_bytes().len() {
                part.is_char_boundary(self.cursor.1)
            } else {
                true
            }
        } else {
            true
        }
    }

    /// The decoded segments of the path.
    pub fn parts(&self) -> (parts: &Vec<String>)
        ensures
            strs(parts@) == self@.parts,
    {
        &self.parts
    }

    /// The part at which matching stands, and the byte within it.
    pub fn cursor(&self) -> (cursor: (usize, usize))
        ensures
            cursor.0 == self@.cursor.0,
            cursor.1 == self@.cursor.1,
    {
        self.cursor
    }
}

/// Whether a response with the status code `code` ends the flow: a
/// redirection, a client error or a server error.
pub open spec fn stops_flow(code: u16) -> bool {
    300 <= code < 600
}

/// Whether the status of a response, if it has one, ends the flow.
pub open spec fn ends_flow(status_code: Option<u16>) -> bool {
    status_code matches Some(code) && stops_flow(code)
}

/// What a flow control holds.
pub struct FlowCtrlView<H> {
    /// Whether the flow was ceased.
    pub is_ceased: bool,
    /// The number of handlers that were started, or skipped.
    pub cursor: nat,
    /// The handlers, in the order in which they are called.
    pub handlers: Seq<H>,
}

impl<H> FlowCtrlView<H> {
    /// Whether a handler is left to call.
    pub open spec fn has_next(self) -> bool {
        self.cursor < self.handlers.len()
    }

    /// This state with every handler that is left skipped.
    pub open spec fn skip_rest(self) -> FlowCtrlView<H> {
        FlowCtrlView { cursor: self.handlers.len(), ..self }
    }

    /// This state with every handler that is left skipped, and marked as
    /// ceased.
    pub open spec fn cease(self) -> FlowCtrlView<H> {
        FlowCtrlView { is_ceased: true, cursor: self.handlers.len(), ..self }
    }

    /// Whether the next handler is called when the response has the status
    /// `status_code`: a handler is left, and the status does not end the
    /// flow.
    pub open spec fn calls_next(self, status_code: Option<u16>) -> bool {
        self.has_next() && !(status_code matches Some(code) && stops_flow(code))
    }

    /// The state after the flow was asked for the next handler: on a
    /// status that ends the flow every handler that is left is skipped;
    /// else the flow moves past the next handler, if one is left.
    pub open spec fn call_next(self, status_code: Option<u16>) -> FlowCtrlView<H> {
        if status_code matches Some(code) && stops_flow(code) {
            self.skip_rest()
        } else if self.has_next() {
            FlowCtrlView { cursor: self.cursor + 1, ..self }
        } else {
            self
        }
    }

    /// The positions of the handlers that are started when the flow is
    /// asked for the next handler again and again, the `i`-th time with
    /// the status `statuses[i]`, until it gives none.
    pub open spec fn started(self, statuses: Seq<Option<u16>>) -> Seq<nat>
        decreases statuses.len(),
    {
        if statuses.len() > 0 && self.calls_next(statuses[0]) {
            seq![self.cursor] + self.call_next(statuses[0]).started(statuses.drop_first())
        } else {
            Seq::empty()
        }
    }

    /// The state after the flow was asked for the next handler again and
    /// again, until it gave none or the statuses ran out.
    pub open spec fn after_calls(self, statuses: Seq<Option<u16>>) -> FlowCtrlView<H>
        decreases statuses.len(),
    {
        if statuses.len() == 0 {
            self
        } else if self.calls_next(statuses[0]) {
            self.call_next(statuses[0]).after_calls(statuses.drop_first())
        } else {
            self.call_next(statuses[0])
        }
    }
}

/// After the rest was skipped no handler is left, and asking for the next
/// handler gives none and changes nothing. Skipping or ceasing twice is
/// the same as once. Skipping keeps the flow ceased or not as it was, and
/// so does asking for the next handler; ceasing marks it as ceased, and
/// nothing takes that back. The handlers stay what they are.
pub proof fn lemma_flow_skips<H>(flow: FlowCtrlView<H>, status_code: Option<u16>)
    ensures
        !flow.skip_rest().has_next(),
        !flow.cease().has_next(),
        flow.cease().is_ceased,
        flow.skip_rest().is_ceased == flow.is_ceased,
        flow.call_next(status_code).is_ceased == flow.is_ceased,
        flow.skip_rest().handlers == flow.handlers,
        flow.cease().handlers == flow.handlers,
        flow.call_next(status_code).handlers == flow.handlers,
        flow.skip_rest().skip_rest() == flow.skip_rest(),
        flow.cease().cease() == flow.cease(),
        flow.cease().skip_rest() == flow.cease(),
        !flow.skip_rest().calls_next(status_code),
        flow.skip_rest().call_next(status_code) == flow.skip_rest(),
        flow.cease().call_next(status_code) == flow.cease(),
{
}

/// What asking for the next handler does: on a status that is a
/// redirection or an error no handler is called and none is left; on any
/// other status the next handler in the list is called, if one is left,
/// and the flow has moved past it.
pub proof fn lemma_flow_call_next<H>(flow: FlowCtrlView<H>, status_code: Option<u16>)
    ensures
        (status_code matches Some(code) && stops_flow(code)) ==> !flow.calls_next(status_code)
            && !flow.call_next(status_code).has_next(),
        !(status_code matches Some(code) && stops_flow(code)) ==> flow.calls_next(status_code)
            == flow.has_next(),
        flow.calls_next(status_code) ==> flow.call_next(status_code).cursor == flow.cursor + 1,
        !flow.calls_next(status_code) && !(status_code matches Some(code) && stops_flow(code))
            ==> flow.call_next(status_code) == flow,
{
}

/// Asked again and again, the flow starts the handlers one after the
/// other, in the order of the list, from the one at the cursor on, and
/// none of them twice. It stops when no handler is left or when the
/// status is a redirection or an error; once it has given none, no
/// handler is left.
pub proof fn lemma_flow_in_order<H>(flow: FlowCtrlView<H>, statuses: Seq<Option<u16>>)
    ensures
        flow.started(statuses).len() <= statuses.len(),
        flow.cursor <= flow.handlers.len() ==> flow.cursor + flow.started(statuses).len()
            <= flow.handlers.len(),
        forall|j: int|
            0 <= j < flow.started(statuses).len() ==> #[trigger] flow.started(statuses)[j]
                == flow.cursor + j,
        forall|j: int| 0 <= j < flow.started(statuses).len() ==> !ends_flow(#[trigger] statuses[j]),
        flow.started(statuses).len() < statuses.len() ==> !flow.after_calls(statuses).has_next(),
        flow.after_calls(statuses).is_ceased == flow.is_ceased,
        flow.after_calls(statuses).handlers == flow.handlers,
    decreases statuses.len(),
{
    if statuses.len() > 0 && flow.calls_next(statuses[0]) {
        let next = flow.call_next(statuses[0]);
        let rest = statuses.drop_first();
        lemma_flow_in_order(next, rest);
        let tail = next.started(rest);
        assert forall|j: int| 0 <= j < flow.started(statuses).len() implies #[trigger] flow.started(
            statuses,
        )[j] == flow.cursor + j by {
            if j > 0 {
                assert(flow.started(statuses)[j] == tail[j - 1]);
            }
        }
        assert forall|j: int| 0 <= j < flow.started(statuses).len() implies !ends_flow(
            #[trigger] statuses[j],
        ) by {
            if j > 0 {
                assert(statuses[j] == rest[j - 1]);
                assert(!ends_flow(rest[j - 1]));
            }
        }
    }
}

/// Controls the flow through the handlers that were collected for a
/// request. The handlers are called one by one. Each of them can let the
/// flow call the next handler, or skip all that are left. A response whose
/// status is a redirection or an error skips them too.
pub struct FlowCtrl<H> {
    is_ceased: bool,
    cursor: usize,
    pub(crate) handlers: Vec<H>,
}

impl<H> View for FlowCtrl<H> {
    type V = FlowCtrlView<H>;

    closed spec fn view(&self) -> FlowCtrlView<H> {
        FlowCtrlView {
            is_ceased: self.is_ceased,
            cursor: self.cursor as nat,
            handlers: self.handlers@,
        }
    }
}

impl<H> FlowCtrl<H> {
    /// A flow that stands before the first of `handlers`.
    pub fn new(handlers: Vec<H>) -> (ctrl: FlowCtrl<H>)
        ensures
            ctrl@ == (FlowCtrlView { is_ceased: false, cursor: 0, handlers: handlers@ }),
    {
        FlowCtrl { is_ceased: false, cursor: 0, handlers }
    }

    /// Whether a handler is left to call.
    pub fn has_next(&self) -> (res: bool)
        ensures
            res == self@.has_next(),
    {
        self.cursor < self.handlers.len() && !self.handlers.is_empty()
    }

    /// Asks for the next handler, given the status code of the response
    /// so far. If the status is a redirection or an error, every handler
    /// that is left is skipped and none is returned. Otherwise the
    /// position of the next handler is returned, if one is left, and the
    /// flow moves past it.
    pub fn call_next(&mut self, status_code: Option<u16>) -> (res: Option<usize>)
        ensures
            final(self)@ == old(self)@.call_next(status_code),
            match res {
                Some(i) => {
                    &&& old(self)@.calls_next(status_code)
                    &&& i == old(self)@.cursor
                    &&& i < old(self)@.handlers.len()
                    &&& final(self)@.cursor == i + 1
                },
                None => !old(self)@.calls_next(status_code),
            },
            (status_code matches Some(code) && stops_flow(code)) ==> res is None
                && !final(self)@.has_next(),
            final(self)@.is_ceased == old(self)@.is_ceased,
            final(self)@.handlers == old(self)@.handlers,
    {
        if let Some(code) = status_code {
            if 300 <= code && code < 600 {
                self.skip_rest();
                return None;
            }
        }
        if self.cursor < self.handlers.len() {
            let at = self.cursor;
            self.cursor += 1;
            Some(at)
        } else {
            None
        }
    }

    /// The handler at `index`, if there is one.
    pub fn get(&self, index: usize) -> (handler: Option<&H>)
        ensures
            match handler {
                Some(h) => index < self@.handlers.len() && *h == self@.handlers[index as int],
                None => index >= self@.handlers.len(),
            },
    {
        if index < self.handlers.len() {
            Some(&self.handlers[index])
        } else {
            None
        }
    }

    /// The handler at `index`.
    pub fn handler(&self, index: usize) -> (handler: &H)
        requires
            index < self@.handlers.len(),
        ensures
            *handler == self@.handlers[index as int],
    {
        &self.handlers[index]
    }

    /// Skips every handler that is left.
    pub fn skip_rest(&mut self)
        ensures
            final(self)@ == old(self)@.skip_rest(),
            !final(self)@.has_next(),
            final(self)@.is_ceased == old(self)@.is_ceased,
            final(self)@.handlers == old(self)@.handlers,
    {
        self.cursor = self.handlers.len()
    }

    /// Whether the flow was ceased.
    pub fn is_ceased(&self) -> (res: bool)
        ensures
            res == self@.is_ceased,
    {
        self.is_ceased
    }

    /// Ceases the flow: every handler that is left is skipped, and a
    /// handler that runs as middleware sees from `is_ceased` that it
    /// should skip what it would do after the handlers behind it.
    pub fn cease(&mut self)
        ensures
            final(self)@ == old(self)@.cease(),
            final(self)@.is_ceased,
            !final(self)@.has_next(),
            final(self)@.handlers == old(self)@.handlers,
    {
        self.skip_rest();
        self.is_ceased = true;
    }
}

} // verus!
