//! The streaming tokenizer: input comes in chunks, complete units go out in
//! input order, and only the bytes of the unit in progress are kept. The
//! tree-builder shadow sees every unit before the caller does and decides,
//! with the tag that opened it, the text mode of what follows a start tag.
use vstd::prelude::*;
use crate::scanner::{
    copy_range, end_of, ends_tag_name_spec, is_ascii_alpha_spec, is_data_text_run, is_data_unit,
    closes_raw_text_at, doctype_read_as, is_doctype_unit, opens_doctype, run_end,
    is_delimited_run, is_raw_text_unit, is_start_tag_named, run_body, opens_comment, scan_unit, tag_name_end, three_at,
    token_of, unit_unfinished, Scanned,
};
use crate::tag_name_hash::{ascii_lower_seq, spec_hash, tag_name_hash_of_bytes};
use crate::token::{LexUnit, LexUnitModel, TextParsingMode, Token, TokenModel};
use crate::tree_builder_simulator::{
    namespace_of, spec_text_mode_after_start_tag, stack_after_unit, text_mode_after_start_tag,
    Namespace, OpenElement, TreeBuilderSimulator,
};

verus! {

/// The one operational failure: a unit in progress outgrew the buffer.
#[derive(Debug, Clone, Copy, PartialEq, Eq, Structural)]
pub enum TokenizerError {
    CapacityExceeded,
}

/// The bytes of a sequence of units, one after another.
pub open spec fn raw_concat(units: Seq<LexUnit>) -> Seq<u8>
    decreases units.len(),
{
    if units.len() == 0 {
        Seq::empty()
    } else {
        raw_concat(units.drop_last()) + units.last()@.raw
    }
}

proof fn lemma_raw_concat_push(units: Seq<LexUnit>, u: LexUnit)
    ensures
        raw_concat(units.push(u)) == raw_concat(units) + u@.raw,
{
    assert(units.push(u).drop_last() =~= units);
}

/// What the token of a unit says of the unit's own bytes, by the mode it
/// was read in. In `Data` mode: bytes that do not start with `<` are one
/// character token of all of them, with no `<` among them; bytes that
/// start with `<` and a letter are a start tag, and with `</` and a letter
/// an end tag, whose name is the lower-cased bytes up to whitespace, `/` or
/// `>`, and which end with `>` (or, only once the input has ended, carry
/// no token, where it ended inside them); bytes that start with `<!--` are
/// a comment of what lies before a closing `-->`, or, only once the input
/// has ended, of all that follows; bytes that start with `<!doctype` (in
/// any case) are a doctype read from what lies between the keyword and the
/// final `>`, the first one, or, only once the input has ended, from all
/// that follows the keyword. In the raw-text modes, bytes that do not
/// start with `</` are one character token of all of them. In the
/// character-data section mode, the bytes before a closing `]]>` are one
/// character token (all of them, only once the input has ended). In
/// `PlainText` mode every byte is character data.
pub open spec fn is_raw_text_mode(mode: TextParsingMode) -> bool {
    mode == TextParsingMode::RcData || mode == TextParsingMode::RawText || mode
        == TextParsingMode::ScriptData
}

pub open spec fn agrees_with_raw(u: LexUnitModel, at_end: bool) -> bool {
    let raw = u.raw;
    let data = u.parsing_mode == TextParsingMode::Data;
    &&& data && raw.len() > 0 && raw[0] != 0x3c ==> u.token == Some(TokenModel::Character(raw))
        && forall|k: int| 0 <= k < raw.len() ==> raw[k] != 0x3c
    &&& data && raw.len() > 1 && raw[0] == 0x3c && is_ascii_alpha_spec(raw[1]) ==> (
    is_start_tag_named(u.token, ascii_lower_seq(raw.subrange(1, tag_name_end(raw, 1))))
        && raw.last() == 0x3e) || (at_end && u.token is None)
    &&& data && raw.len() > 2 && raw[0] == 0x3c && raw[1] == 0x2f && is_ascii_alpha_spec(raw[2])
        ==> (u.token == Some(
        TokenModel::EndTag(ascii_lower_seq(raw.subrange(2, tag_name_end(raw, 2)))),
    ) && raw.last() == 0x3e) || (at_end && u.token is None)
    &&& data && raw.len() >= 4 && raw[0] == 0x3c && raw[1] == 0x21 && raw[2] == 0x2d && raw[3]
        == 0x2d ==> if raw.len() >= 7 && three_at(raw, raw.len() - 3, 0x2d, 0x2d, 0x3e) {
        u.token == Some(TokenModel::Comment(raw.subrange(4, raw.len() - 3)))
    } else {
        at_end && u.token == Some(TokenModel::Comment(raw.subrange(4, raw.len() as int)))
    }
    &&& data && opens_doctype(raw, 0) && raw[0] == 0x3c && raw[1] == 0x21 ==> u.token is Some && (forall|k: int|
        2 <= k < raw.len() - 1 ==> raw[k] != 0x3e) && if raw.last() == 0x3e {
        doctype_read_as(raw, 9, raw.len() - 1, true, u.token->0)
    } else {
        at_end && doctype_read_as(raw, 9, raw.len() as int, false, u.token->0)
    }
    &&& is_raw_text_mode(u.parsing_mode) && raw.len() > 0 && !(raw.len() > 1 && raw[0] == 0x3c
        && raw[1] == 0x2f) ==> u.token == Some(TokenModel::Character(raw))
    &&& u.parsing_mode == TextParsingMode::CDataSection && raw.len() > 0 ==> if raw.len() >= 3
        && three_at(raw, raw.len() - 3, 0x5d, 0x5d, 0x3e) {
        u.token == Some(TokenModel::Character(raw.subrange(0, raw.len() - 3)))
    } else {
        at_end && u.token == Some(TokenModel::Character(raw))
    }
    &&& u.parsing_mode == TextParsingMode::PlainText && raw.len() > 0 ==> u.token == Some(
        TokenModel::Character(raw),
    )
}

/// Within a slice that holds a name's end, the name ends where it ends in
/// the whole buffer.
proof fn lemma_tag_name_end_in_slice(buf: Seq<u8>, start: int, end: int, from: int, j: int)
    requires
        0 <= start <= from <= j < end <= buf.len(),
        ends_tag_name_spec(buf[j]),
    ensures
        from <= tag_name_end(buf, from) <= j,
        tag_name_end(buf.subrange(start, end), from - start) == tag_name_end(buf, from) - start,
    decreases j - from,
{
    let raw = buf.subrange(start, end);
    assert(raw[from - start] == buf[from]);
    if !ends_tag_name_spec(buf[from]) {
        lemma_tag_name_end_in_slice(buf, start, end, from + 1, j);
    }
}

/// Within a slice that reaches `limit`, runs end where they end in the
/// whole buffer.
proof fn lemma_run_end_in_slice(buf: Seq<u8>, start: int, end: int, i: int, limit: int, white: bool)
    requires
        0 <= start <= i <= limit <= end <= buf.len(),
    ensures
        i <= run_end(buf, i, limit, white) <= limit,
        run_end(buf.subrange(start, end), i - start, limit - start, white) == run_end(
            buf,
            i,
            limit,
            white,
        ) - start,
    decreases limit - i,
{
    if i < limit {
        assert(buf.subrange(start, end)[i - start] == buf[i]);
        lemma_run_end_in_slice(buf, start, end, i + 1, limit, white);
    }
}

/// How a doctype is read does not change when the bytes around it are cut
/// away.
proof fn lemma_doctype_read_in_slice(
    buf: Seq<u8>,
    start: int,
    end: int,
    limit: int,
    closed: bool,
    t: TokenModel,
)
    requires
        0 <= start,
        start + 9 <= limit <= end <= buf.len(),
        doctype_read_as(buf, start + 9, limit, closed, t),
    ensures
        doctype_read_as(buf.subrange(start, end), 9, limit - start, closed, t),
{
    let raw = buf.subrange(start, end);
    let ns = run_end(buf, start + 9, limit, true);
    lemma_run_end_in_slice(buf, start, end, start + 9, limit, true);
    let ne = run_end(buf, ns, limit, false);
    lemma_run_end_in_slice(buf, start, end, ns, limit, false);
    lemma_run_end_in_slice(buf, start, end, ne, limit, true);
    assert(raw.subrange(ns - start, ne - start) =~= buf.subrange(ns, ne));
}

/// A unit found by the scanner, taken with its own bytes, agrees with them.
proof fn lemma_found_unit_agrees(
    buf: Seq<u8>,
    start: int,
    r: Scanned,
    mode: TextParsingMode,
    last: Option<u64>,
    at_end: bool,
)
    requires
        r is Some,
        is_raw_text_mode(mode) ==> is_raw_text_unit(buf, start, r, last, at_end),
        mode == TextParsingMode::CDataSection ==> is_delimited_run(
            buf,
            start,
            r,
            0x5d,
            0x5d,
            0x3e,
        ) && token_of(r) == Some(
            TokenModel::Character(run_body(buf, start, r, 0x5d, 0x5d, 0x3e)),
        ) && (at_end || (start <= end_of(r) - 3 && three_at(buf, end_of(r) - 3, 0x5d, 0x5d, 0x3e))),
        0 <= start < end_of(r) <= buf.len(),
        mode == TextParsingMode::Data ==> is_data_unit(buf, start, r, at_end),
        mode == TextParsingMode::PlainText ==> end_of(r) == buf.len() && token_of(r) == Some(
            TokenModel::Character(buf.subrange(start, buf.len() as int)),
        ),
    ensures
        agrees_with_raw(
            LexUnitModel { raw: buf.subrange(start, end_of(r)), token: token_of(r), parsing_mode: mode },
            at_end,
        ),
{
    let end = end_of(r);
    let raw = buf.subrange(start, end);
    assert(raw.len() > 0 ==> raw[0] == buf[start]);
    if is_raw_text_mode(mode) && raw.len() > 0 && !(raw.len() > 1 && raw[0] == 0x3c && raw[1]
        == 0x2f) {
        if closes_raw_text_at(buf, start, last) {
            assert(raw[1] == buf[start + 1]);
        }
    }
    if mode == TextParsingMode::CDataSection {
        if raw.len() >= 3 && three_at(raw, raw.len() - 3, 0x5d, 0x5d, 0x3e) {
            assert(raw[raw.len() - 3] == buf[end - 3]);
            assert(raw[raw.len() - 2] == buf[end - 2]);
            assert(raw[raw.len() - 1] == buf[end - 1]);
            assert(three_at(buf, end - 3, 0x5d, 0x5d, 0x3e));
            assert(raw.subrange(0, raw.len() - 3) =~= buf.subrange(start, end - 3));
        } else {
            if start <= end - 3 && three_at(buf, end - 3, 0x5d, 0x5d, 0x3e) {
                assert(raw[raw.len() - 3] == buf[end - 3]);
                assert(raw[raw.len() - 2] == buf[end - 2]);
                assert(raw[raw.len() - 1] == buf[end - 1]);
            }
            assert(raw =~= buf.subrange(start, end));
        }
    }
    if mode == TextParsingMode::Data && opens_doctype(raw, 0) && raw[0] == 0x3c && raw[1] == 0x21 {
        assert(raw[0] == buf[start] && raw[1] == buf[start + 1]);
        assert(raw.subrange(2, 9) =~= buf.subrange(start + 2, start + 9));
        assert forall|k: int| start + 2 <= k < start + 9 implies buf[k] != 0x3e by {
            assert(raw[k - start] == buf[k]);
        }
        assert(opens_doctype(buf, start));
        assert(is_doctype_unit(buf, start, r, at_end));
        assert forall|k: int| 2 <= k < raw.len() - 1 implies raw[k] != 0x3e by {
            assert(raw[k] == buf[start + k]);
        }
        assert(raw.last() == buf[end - 1]);
        if raw.last() == 0x3e {
            lemma_doctype_read_in_slice(buf, start, end, end - 1, true, token_of(r)->0);
        } else {
            lemma_doctype_read_in_slice(buf, start, end, end, false, token_of(r)->0);
        }
    }
    if mode == TextParsingMode::Data {
        if buf[start] != 0x3c {
            assert(is_data_text_run(buf, start, r));
            assert forall|k: int| 0 <= k < raw.len() implies raw[k] != 0x3c by {
                assert(raw[k] == buf[start + k]);
            }
        }
        if raw.len() > 1 && buf[start] == 0x3c && is_ascii_alpha_spec(raw[1]) && token_of(r) is Some {
            assert(raw[1] == buf[start + 1]);
            assert(buf[end - 1] == 0x3e);
            lemma_tag_name_end_in_slice(buf, start, end, start + 1, end - 1);
            assert(raw.subrange(1, tag_name_end(raw, 1)) =~= buf.subrange(
                start + 1,
                tag_name_end(buf, start + 1),
            ));
            assert(raw.last() == buf[end - 1]);
        }
        if raw.len() > 2 && buf[start] == 0x3c && raw[1] == 0x2f && is_ascii_alpha_spec(raw[2])
            && token_of(r) is Some {
            assert(raw[1] == buf[start + 1]);
            assert(raw[2] == buf[start + 2]);
            assert(buf[end - 1] == 0x3e);
            lemma_tag_name_end_in_slice(buf, start, end, start + 2, end - 1);
            assert(raw.subrange(2, tag_name_end(raw, 2)) =~= buf.subrange(
                start + 2,
                tag_name_end(buf, start + 2),
            ));
            assert(raw.last() == buf[end - 1]);
        }
        if raw.len() >= 4 && buf[start] == 0x3c && raw[1] == 0x21 && raw[2] == 0x2d && raw[3]
            == 0x2d {
            assert(raw[1] == buf[start + 1] && raw[2] == buf[start + 2] && raw[3] == buf[start + 3]);
            assert(opens_comment(buf, start));
            assert(is_delimited_run(buf, start + 4, r, 0x2d, 0x2d, 0x3e));
            if raw.len() >= 7 && three_at(raw, raw.len() - 3, 0x2d, 0x2d, 0x3e) {
                assert(raw[raw.len() - 3] == buf[end - 3]);
                assert(raw[raw.len() - 2] == buf[end - 2]);
                assert(raw[raw.len() - 1] == buf[end - 1]);
                assert(three_at(buf, end - 3, 0x2d, 0x2d, 0x3e));
                assert(raw.subrange(4, raw.len() - 3) =~= buf.subrange(start + 4, end - 3));
            } else {
                if start + 4 <= end - 3 && three_at(buf, end - 3, 0x2d, 0x2d, 0x3e) {
                    assert(raw[raw.len() - 3] == buf[end - 3]);
                    assert(raw[raw.len() - 2] == buf[end - 2]);
                    assert(raw[raw.len() - 1] == buf[end - 1]);
                }
                assert(end == buf.len());
                assert(raw.subrange(4, raw.len() as int) =~= buf.subrange(start + 4, end));
            }
        }
    }
}

/// Whether bytes end with `]]>`.
pub open spec fn ends_with_cdata_close(raw: Seq<u8>) -> bool {
    raw.len() >= 3 && raw[raw.len() - 3] == 0x5d && raw[raw.len() - 2] == 0x5d && raw[raw.len() - 1]
        == 0x3e
}

/// The text mode after a unit read in `mode`: a start tag read in `Data`
/// mode opens the mode that its element calls for in the namespace that
/// held before it; an end tag, or the `]]>` that closes a character-data
/// section, returns to `Data`; anything else keeps the mode.
pub open spec fn mode_after_unit(mode: TextParsingMode, u: LexUnitModel, namespace: Namespace)
    -> TextParsingMode {
    match u.token {
        Some(TokenModel::StartTag(m)) => if mode == TextParsingMode::Data {
            spec_text_mode_after_start_tag(spec_hash(m.name), namespace)
        } else {
            mode
        },
        Some(TokenModel::EndTag(_)) => TextParsingMode::Data,
        Some(TokenModel::Character(_)) => if mode == TextParsingMode::CDataSection
            && ends_with_cdata_close(u.raw) {
            TextParsingMode::Data
        } else {
            mode
        },
        _ => mode,
    }
}

/// The code that an end tag must have to close a raw-text region, after a
/// unit: the code of the last start tag's name.
pub open spec fn last_start_tag_after_unit(last: Option<u64>, u: LexUnitModel) -> Option<u64> {
    match u.token {
        Some(TokenModel::StartTag(m)) => spec_hash(m.name),
        _ => last,
    }
}

/// What decides how the next bytes are read: the text mode, the code of
/// the last start tag's name, and the shadow tree's stack.
pub struct ReaderState {
    pub mode: TextParsingMode,
    pub last_start_tag_hash: Option<u64>,
    pub stack: Seq<OpenElement>,
}

/// The reader's state after one unit.
pub open spec fn step(st: ReaderState, u: LexUnitModel) -> ReaderState {
    ReaderState {
        mode: mode_after_unit(st.mode, u, namespace_of(st.stack)),
        last_start_tag_hash: last_start_tag_after_unit(st.last_start_tag_hash, u),
        stack: stack_after_unit(st.stack, u),
    }
}

/// The reader's state after a sequence of units, one after another.
pub open spec fn state_after(st: ReaderState, units: Seq<LexUnit>) -> ReaderState
    decreases units.len(),
{
    if units.len() == 0 {
        st
    } else {
        step(state_after(st, units.drop_last()), units.last()@)
    }
}

/// Whether each unit was read in the mode that the units before it led to.
pub open spec fn read_in_turn(st: ReaderState, units: Seq<LexUnit>) -> bool
    decreases units.len(),
{
    if units.len() == 0 {
        true
    } else {
        read_in_turn(st, units.drop_last()) && units.last()@.parsing_mode == state_after(
            st,
            units.drop_last(),
        ).mode
    }
}

pub struct Tokenizer {
    capacity: usize,
    pending: Vec<u8>,
    mode: TextParsingMode,
    last_start_tag_hash: Option<u64>,
    simulator: TreeBuilderSimulator,
    finished: bool,
    failed: bool,
    input: Ghost<Seq<u8>>,
    emitted: Ghost<Seq<u8>>,
}

impl Tokenizer {
    /// Every byte written so far.
    pub closed spec fn input(&self) -> Seq<u8> {
        self.input@
    }

    /// The bytes of every unit handed out so far, in order.
    pub closed spec fn emitted_raw(&self) -> Seq<u8> {
        self.emitted@
    }

    /// The bytes of the unit in progress.
    pub closed spec fn pending(&self) -> Seq<u8> {
        self.pending@
    }

    pub closed spec fn spec_capacity(&self) -> nat {
        self.capacity as nat
    }

    pub open spec fn spec_mode(&self) -> TextParsingMode {
        self.reader_state().mode
    }

    pub open spec fn spec_last_start_tag_hash(&self) -> Option<u64> {
        self.reader_state().last_start_tag_hash
    }

    pub closed spec fn reader_state(&self) -> ReaderState {
        ReaderState {
            mode: self.mode,
            last_start_tag_hash: self.last_start_tag_hash,
            stack: self.simulator@,
        }
    }

    /// Whether a write has failed; the tokenizer then takes no more input.
    pub closed spec fn has_failed(&self) -> bool {
        self.failed
    }

    /// Whether the end of input has been handled.
    pub closed spec fn is_finished(&self) -> bool {
        self.finished
    }

    /// What was handed out and what is kept make up what was written.
    pub closed spec fn wf(&self) -> bool {
        self.emitted@ + self.pending@ == self.input@
            && (self.finished ==> self.pending@.len() == 0)
    }

    /// A tokenizer in the `Data` mode that holds at most `capacity` bytes of
    /// an unfinished unit.
    pub fn new(capacity: usize) -> (r: Tokenizer)
        ensures
            r.wf(),
            r.input() == Seq::<u8>::empty(),
            r.emitted_raw() == Seq::<u8>::empty(),
            r.spec_capacity() == capacity,
            r.spec_mode() == TextParsingMode::Data,
            r.spec_last_start_tag_hash() == None::<u64>,
            !r.has_failed(),
            r.reader_state().stack == Seq::<OpenElement>::empty(),
            !r.is_finished(),
    {
        Tokenizer {
            capacity,
            pending: Vec::new(),
            mode: TextParsingMode::Data,
            last_start_tag_hash: None,
            simulator: TreeBuilderSimulator::new(),
            finished: false,
            failed: false,
            input: Ghost(Seq::empty()),
            emitted: Ghost(Seq::empty()),
        }
    }

    /// Sets the text mode for what is read next.
    pub fn set_state(&mut self, mode: TextParsingMode)
        ensures
            final(self).spec_mode() == mode,
            final(self).input() == old(self).input(),
            final(self).emitted_raw() == old(self).emitted_raw(),
            final(self).pending() == old(self).pending(),
            final(self).spec_capacity() == old(self).spec_capacity(),
            final(self).spec_last_start_tag_hash() == old(self).spec_last_start_tag_hash(),
            final(self).reader_state().stack == old(self).reader_state().stack,
            final(self).is_finished() == old(self).is_finished(),
            old(self).wf() ==> final(self).wf(),
    {
        self.mode = mode;
    }

    /// Sets the code of the tag whose end tag closes a raw-text region.
    pub fn set_last_start_tag_hash(&mut self, code: Option<u64>)
        ensures
            final(self).spec_last_start_tag_hash() == code,
            final(self).spec_mode() == old(self).spec_mode(),
            final(self).reader_state().stack == old(self).reader_state().stack,
            final(self).input() == old(self).input(),
            final(self).emitted_raw() == old(self).emitted_raw(),
            final(self).pending() == old(self).pending(),
            final(self).spec_capacity() == old(self).spec_capacity(),
            final(self).is_finished() == old(self).is_finished(),
            old(self).wf() ==> final(self).wf(),
    {
        self.last_start_tag_hash = code;
    }

    pub fn capacity(&self) -> (r: usize)
        ensures
            r == self.spec_capacity(),
    {
        self.capacity
    }

    /// The shadow tree that sees every unit before the caller does.
    pub fn simulator(&self) -> (r: &TreeBuilderSimulator)
        ensures
            r@ == self.reader_state().stack,
    {
        &self.simulator
    }

    pub fn mode(&self) -> (r: TextParsingMode)
        ensures
            r == self.spec_mode(),
    {
        self.mode
    }

    /// Updates the mode, the last start tag and the shadow tree after a
    /// unit: a start tag in the `Data` mode chooses the next mode; an end
    /// tag or a finished character-data section returns to `Data`.
    fn after_unit(&mut self, unit: &LexUnit)
        ensures
            final(self).input == old(self).input,
            final(self).emitted == old(self).emitted,
            final(self).pending == old(self).pending,
            final(self).capacity == old(self).capacity,
            final(self).finished == old(self).finished,
            final(self).failed == old(self).failed,
            final(self).reader_state() == step(old(self).reader_state(), unit@),
            final(self).simulator@ == stack_after_unit(old(self).simulator@, unit@),
    {
        match unit.token() {
            Some(Token::StartTag(t)) => {
                let code = tag_name_hash_of_bytes(t.name().as_slice());
                if self.mode == TextParsingMode::Data {
                    self.mode = text_mode_after_start_tag(code, self.simulator.current_namespace());
                }
                self.last_start_tag_hash = code;
            },
            Some(Token::EndTag(_)) => {
                self.mode = TextParsingMode::Data;
            },
            Some(Token::Character(_)) => {
                if self.mode == TextParsingMode::CDataSection && ends_cdata(unit.raw().as_slice()) {
                    self.mode = TextParsingMode::Data;
                }
            },
            _ => {},
        }
        self.simulator.observe(unit);
    }

    /// Reads as many units from the kept bytes as are complete (all of them
    /// at the end of input), hands each to the shadow tree and appends it to
    /// `out`.
    fn run(&mut self, at_end: bool, out: &mut Vec<LexUnit>)
        requires
            old(self).wf(),
            !old(self).finished,
        ensures
            final(self).wf(),
            !final(self).finished,
            final(self).input == old(self).input,
            final(self).capacity == old(self).capacity,
            final(self).failed == old(self).failed,
            at_end ==> final(self).pending@.len() == 0,
            final(self).pending@.len() == 0 || unit_unfinished(
                final(self).pending@,
                0,
                final(self).mode,
                final(self).last_start_tag_hash,
            ),
            final(out)@.len() >= old(out)@.len(),
            final(out)@.subrange(0, old(out)@.len() as int) == old(out)@,
            final(self).emitted@ == old(self).emitted@ + raw_concat(
                final(out)@.subrange(old(out)@.len() as int, final(out)@.len() as int),
            ),
            forall|k: int|
                old(out)@.len() <= k < final(out)@.len() ==> agrees_with_raw(#[trigger] final(out)@[k]@, at_end),
            read_in_turn(
                old(self).reader_state(),
                final(out)@.subrange(old(out)@.len() as int, final(out)@.len() as int),
            ),
            final(self).reader_state() == state_after(
                old(self).reader_state(),
                final(out)@.subrange(old(out)@.len() as int, final(out)@.len() as int),
            ),
    {
        let ghost out0 = out@;
        let ghost emitted0 = self.emitted@;
        let ghost st0 = self.reader_state();
        proof {
            assert(out@.subrange(out0.len() as int, out@.len() as int) =~= Seq::<LexUnit>::empty());
        }
        let mut done = false;
        while !done && self.pending.len() > 0
            invariant
                self.input == old(self).input,
                self.capacity == old(self).capacity,
                self.failed == old(self).failed,
                !self.finished,
                self.emitted@ + self.pending@ == self.input@,
                out@.len() >= out0.len(),
                out@.subrange(0, out0.len() as int) == out0,
                self.emitted@ == emitted0 + raw_concat(
                    out@.subrange(out0.len() as int, out@.len() as int),
                ),
                done ==> !at_end && self.pending@.len() > 0 && unit_unfinished(
                    self.pending@,
                    0,
                    self.mode,
                    self.last_start_tag_hash,
                ),
                forall|k: int| out0.len() <= k < out@.len() ==> agrees_with_raw(#[trigger] out@[k]@, at_end),
                read_in_turn(st0, out@.subrange(out0.len() as int, out@.len() as int)),
                self.reader_state() == state_after(st0, out@.subrange(out0.len() as int, out@.len() as int)),
            decreases self.pending@.len(), if done { 0int } else { 1int },
        {
            let found = scan_unit(
                self.pending.as_slice(),
                0,
                self.mode,
                self.last_start_tag_hash,
                at_end,
            );
            match found {
                Some((end, token)) => {
                    proof {
                        lemma_found_unit_agrees(
                            self.pending@,
                            0,
                            found,
                            self.mode,
                            self.last_start_tag_hash,
                            at_end,
                        );
                    }
                    let raw = copy_range(self.pending.as_slice(), 0, end);
                    let rest = copy_range(self.pending.as_slice(), end, self.pending.len());
                    let unit = LexUnit::new(raw, token, self.mode);
                    let ghost st_before = self.reader_state();
                    self.after_unit(&unit);
                    let ghost before = out@;
                    proof {
                        let n = out0.len() as int;
                        let prev = before.subrange(n, before.len() as int);
                        assert(prev.push(unit).drop_last() =~= prev);
                        assert(prev.push(unit).last() == unit);
                        lemma_raw_concat_push(prev, unit);
                        assert(before.push(unit).subrange(n, before.len() + 1int) =~= prev.push(unit));
                        assert(before.push(unit).subrange(0, n) =~= before.subrange(0, n));
                        assert(self.pending@ =~= unit@.raw + rest@);
                    }
                    self.emitted = Ghost(self.emitted@ + unit@.raw);
                    assert(self.emitted@ =~= emitted0 + (raw_concat(
                        before.subrange(out0.len() as int, before.len() as int),
                    ) + unit@.raw));
                    self.pending = rest;
                    assert(self.emitted@ + self.pending@ =~= self.input@);
                    out.push(unit);
                },
                None => {
                    done = true;
                },
            }
        }
    }

    /// Feeds one chunk of input. Complete units are appended to `out`, so
    /// that what is kept afterwards is empty or holds no complete unit. The
    /// call fails exactly when the unit still in progress is longer than the
    /// capacity; after a failure every write fails and changes nothing.
    pub fn write(&mut self, chunk: &[u8], out: &mut Vec<LexUnit>) -> (r: Result<(), TokenizerError>)
        requires
            old(self).wf(),
            !old(self).is_finished(),
        ensures
            final(self).wf(),
            !final(self).is_finished(),
            final(self).spec_capacity() == old(self).spec_capacity(),
            old(self).has_failed() ==> r is Err && final(self).input() == old(self).input()
                && final(self).pending() == old(self).pending() && final(out)@ == old(out)@
                && final(self).has_failed(),
            !old(self).has_failed() ==> final(self).input() == old(self).input() + chunk@,
            !old(self).has_failed() ==> (r is Err <==> final(self).pending().len()
                > final(self).spec_capacity()),
            !old(self).has_failed() ==> (final(self).pending().len() == 0 || unit_unfinished(
                final(self).pending(),
                0,
                final(self).spec_mode(),
                final(self).spec_last_start_tag_hash(),
            )),
            final(self).has_failed() == r is Err,
            final(out)@.len() >= old(out)@.len(),
            final(out)@.subrange(0, old(out)@.len() as int) == old(out)@,
            final(self).emitted_raw() == old(self).emitted_raw() + raw_concat(
                final(out)@.subrange(old(out)@.len() as int, final(out)@.len() as int),
            ),
            forall|k: int|
                old(out)@.len() <= k < final(out)@.len() ==> agrees_with_raw(#[trigger] final(out)@[k]@, false),
            read_in_turn(
                old(self).reader_state(),
                final(out)@.subrange(old(out)@.len() as int, final(out)@.len() as int),
            ),
            final(self).reader_state() == state_after(
                old(self).reader_state(),
                final(out)@.subrange(old(out)@.len() as int, final(out)@.len() as int),
            ),
    {
        if self.failed {
            proof {
                assert(out@.subrange(out@.len() as int, out@.len() as int) =~= Seq::<LexUnit>::empty());
                assert(out@.subrange(0, out@.len() as int) =~= out@);
                assert(self.emitted@ + Seq::<u8>::empty() =~= self.emitted@);
            }
            return Err(TokenizerError::CapacityExceeded);
        }
        let mut i: usize = 0;
        let ghost pending0 = self.pending@;
        while i < chunk.len()
            invariant
                i <= chunk@.len(),
                self.pending@ == pending0 + chunk@.subrange(0, i as int),
                self.input == old(self).input,
                self.emitted == old(self).emitted,
                self.capacity == old(self).capacity,
                self.finished == old(self).finished,
                self.failed == old(self).failed,
                pending0 == old(self).pending@,
                self.mode == old(self).mode,
                self.last_start_tag_hash == old(self).last_start_tag_hash,
                self.simulator@ == old(self).simulator@,
            decreases chunk@.len() - i,
        {
            self.pending.push(chunk[i]);
            i = i + 1;
            assert(self.pending@ =~= pending0 + chunk@.subrange(0, i as int));
        }
        proof {
            assert(chunk@.subrange(0, i as int) =~= chunk@);
        }
        self.input = Ghost(self.input@ + chunk@);
        assert(self.emitted@ + self.pending@ =~= self.input@);
        self.run(false, out);
        if self.pending.len() > self.capacity {
            self.failed = true;
            Err(TokenizerError::CapacityExceeded)
        } else {
            Ok(())
        }
    }

    /// Ends the input: every kept byte goes out in units, then one `Eof`
    /// unit with no bytes.
    pub fn end(&mut self, out: &mut Vec<LexUnit>)
        requires
            old(self).wf(),
            !old(self).is_finished(),
        ensures
            final(self).wf(),
            final(self).is_finished(),
            final(self).input() == old(self).input(),
            final(self).emitted_raw() == final(self).input(),
            final(out)@.len() > old(out)@.len(),
            final(out)@.subrange(0, old(out)@.len() as int) == old(out)@,
            final(out)@.last()@.token == Some(TokenModel::Eof),
            forall|k: int|
                old(out)@.len() <= k < final(out)@.len() ==> agrees_with_raw(#[trigger] final(out)@[k]@, true),
            read_in_turn(
                old(self).reader_state(),
                final(out)@.subrange(old(out)@.len() as int, final(out)@.len() as int),
            ),
            final(self).reader_state() == state_after(
                old(self).reader_state(),
                final(out)@.subrange(old(out)@.len() as int, final(out)@.len() as int),
            ),
            final(self).emitted_raw() == old(self).emitted_raw() + raw_concat(
                final(out)@.subrange(old(out)@.len() as int, final(out)@.len() as int),
            ),
    {
        let ghost out0 = out@;
        self.run(true, out);
        let eof = LexUnit::new(Vec::new(), Some(Token::Eof), self.mode);
        let ghost before = out@;
        out.push(eof);
        proof {
            let n = out0.len() as int;
            lemma_raw_concat_push(before.subrange(n, before.len() as int), eof);
            assert(out@.subrange(n, out@.len() as int) =~= before.subrange(n, before.len() as int).push(eof));
            assert(out@.subrange(0, n) =~= before.subrange(0, n));
            assert(eof@.raw =~= Seq::<u8>::empty());
            assert(self.emitted@ + eof@.raw =~= self.emitted@);
            assert(self.emitted@ =~= self.emitted@ + self.pending@);
            assert(agrees_with_raw(eof@, true));
            let prev = before.subrange(n, before.len() as int);
            assert(out@.subrange(n, out@.len() as int).drop_last() =~= prev);
            assert(step(self.reader_state(), eof@) == self.reader_state());
            assert forall|k: int| n <= k < out@.len() implies agrees_with_raw(#[trigger] out@[k]@, true) by {
                if k < before.len() {
                    assert(out@[k] == before[k]);
                }
            }
        }
        self.finished = true;
    }
}

/// Whether a unit's bytes end with `]]>`.
fn ends_cdata(raw: &[u8]) -> (r: bool)
    ensures
        r == ends_with_cdata_close(raw@),
{
    let n = raw.len();
    n >= 3 && raw[n - 3] == 0x5d && raw[n - 2] == 0x5d && raw[n - 1] == 0x3e
}

/// Once the input has ended, the units handed out, one after another, are
/// exactly the bytes written.
pub proof fn lemma_raw_spans_cover_input(t: &Tokenizer)
    requires
        t.wf(),
        t.is_finished(),
    ensures
        t.emitted_raw() == t.input(),
{
    assert(t.pending() =~= Seq::<u8>::empty());
    assert(t.emitted_raw() + t.pending() =~= t.emitted_raw());
}

/// Capacity bounds single units, not documents. A tokenizer never keeps
/// more bytes than were written to it; and once a write has handed out
/// every complete unit, what it keeps is one unfinished unit, so a failure
/// (kept bytes beyond the capacity) always comes from a single unfinished
/// unit longer than the capacity.
pub proof fn lemma_capacity_boundary(t: &Tokenizer)
    requires
        t.wf(),
        t.pending().len() == 0 || unit_unfinished(
            t.pending(),
            0,
            t.spec_mode(),
            t.spec_last_start_tag_hash(),
        ),
    ensures
        t.pending().len() <= t.input().len(),
        t.input().len() <= t.spec_capacity() ==> t.pending().len() <= t.spec_capacity(),
        t.pending().len() > t.spec_capacity() ==> t.pending().len() > 0 && unit_unfinished(
            t.pending(),
            0,
            t.spec_mode(),
            t.spec_last_start_tag_hash(),
        ),
{
}

} // verus!
