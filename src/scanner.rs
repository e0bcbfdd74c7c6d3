//! Byte-level scanning of one lexical unit at a time. Each scanner looks at
//! the bytes from `start` on and either finds where the next unit ends, with
//! the token read from it, or says that more input is needed. With `at_end`
//! set no more input will come, and a scanner always makes progress.
use vstd::prelude::*;
use crate::tag_name_hash::{ascii_lower, ascii_lower_seq, spec_hash, update_tag_name_hash};
use crate::token::{
    opt_token_view, Attribute, Bytes, ParsedAttributeList, TextParsingMode, Token,
    TokenModel,
};

verus! {

pub open spec fn is_ascii_alpha_spec(b: u8) -> bool {
    (0x61 <= b <= 0x7a) || (0x41 <= b <= 0x5a)
}

pub fn is_ascii_alpha(b: u8) -> (r: bool)
    ensures
        r == is_ascii_alpha_spec(b),
{
    (0x61 <= b && b <= 0x7a) || (0x41 <= b && b <= 0x5a)
}

/// Tab, line feed, form feed, carriage return and space.
pub fn is_whitespace(b: u8) -> (r: bool)
    ensures
        r == (b == 0x09 || b == 0x0a || b == 0x0c || b == 0x0d || b == 0x20),
{
    b == 0x09 || b == 0x0a || b == 0x0c || b == 0x0d || b == 0x20
}

fn ends_tag_name(b: u8) -> (r: bool)
    ensures
        r == ends_tag_name_spec(b),
{
    is_whitespace(b) || b == 0x2f || b == 0x3e
}

pub fn to_ascii_lower(b: u8) -> (r: u8)
    ensures
        r == ascii_lower(b),
{
    if 0x41 <= b && b <= 0x5a {
        b + 0x20
    } else {
        b
    }
}

/// The bytes of `buf` from `from` up to `to`.
pub fn copy_range(buf: &[u8], from: usize, to: usize) -> (r: Bytes)
    requires
        from <= to <= buf@.len(),
    ensures
        r@ == buf@.subrange(from as int, to as int),
{
    let mut r: Vec<u8> = Vec::new();
    let mut i: usize = from;
    while i < to
        invariant
            from <= i <= to <= buf@.len(),
            r@ == buf@.subrange(from as int, i as int),
        decreases to - i,
    {
        r.push(buf[i]);
        i = i + 1;
        assert(r@ =~= buf@.subrange(from as int, i as int));
    }
    r
}

/// The bytes of `buf` from `from` up to `to`, in ASCII lower case.
pub fn copy_range_lower(buf: &[u8], from: usize, to: usize) -> (r: Bytes)
    requires
        from <= to <= buf@.len(),
    ensures
        r@ == ascii_lower_seq(buf@.subrange(from as int, to as int)),
{
    let mut r: Vec<u8> = Vec::new();
    let mut i: usize = from;
    while i < to
        invariant
            from <= i <= to <= buf@.len(),
            r@ == ascii_lower_seq(buf@.subrange(from as int, i as int)),
        decreases to - i,
    {
        r.push(to_ascii_lower(buf[i]));
        i = i + 1;
        assert(r@ =~= ascii_lower_seq(buf@.subrange(from as int, i as int)));
    }
    r
}

/// The first position at or after `from` that holds `b`.
pub fn find_byte(buf: &[u8], from: usize, b: u8) -> (r: Option<usize>)
    requires
        from <= buf@.len(),
    ensures
        match r {
            Some(j) => from <= j < buf@.len() && buf@[j as int] == b && forall|k: int|
                from <= k < j ==> buf@[k] != b,
            None => forall|k: int| from <= k < buf@.len() ==> buf@[k] != b,
        },
{
    let mut i: usize = from;
    while i < buf.len()
        invariant
            from <= i <= buf@.len(),
            forall|k: int| from <= k < i ==> buf@[k] != b,
        decreases buf@.len() - i,
    {
        if buf[i] == b {
            return Some(i);
        }
        i = i + 1;
    }
    None
}

/// Whether the three bytes `a b c` stand at `k` in `s`.
pub open spec fn three_at(s: Seq<u8>, k: int, a: u8, b: u8, c: u8) -> bool {
    0 <= k && k + 3 <= s.len() && s[k] == a && s[k + 1] == b && s[k + 2] == c
}

/// The first position at or after `from` where the three bytes `a b c`
/// begin.
pub fn find_three(buf: &[u8], from: usize, a: u8, b: u8, c: u8) -> (r: Option<usize>)
    requires
        from <= buf@.len(),
    ensures
        match r {
            Some(j) => from <= j && three_at(buf@, j as int, a, b, c) && forall|k: int|
                from <= k < j ==> !three_at(buf@, k, a, b, c),
            None => forall|k: int| from <= k ==> !three_at(buf@, k, a, b, c),
        },
{
    let mut i: usize = from;
    while i < buf.len() && buf.len() - i > 2
        invariant
            from <= i <= buf@.len(),
            forall|k: int| from <= k < i ==> !three_at(buf@, k, a, b, c),
        decreases buf@.len() - i,
    {
        if buf[i] == a && buf[i + 1] == b && buf[i + 2] == c {
            return Some(i);
        }
        i = i + 1;
    }
    None
}

/// Whether the bytes at `at` are `word` (given in lower case) in any ASCII
/// case, all before `limit`.
fn matches_word_ignoring_case(buf: &[u8], at: usize, limit: usize, word: &[u8]) -> (r: bool)
    requires
        limit <= buf@.len(),
    ensures
        r == (at <= limit && at + word@.len() <= limit && ascii_lower_seq(
            buf@.subrange(at as int, at + word@.len()),
        ) == word@),
{
    if at > limit || limit - at < word.len() {
        return false;
    }
    let ghost lowered = ascii_lower_seq(buf@.subrange(at as int, at + word@.len()));
    let mut k: usize = 0;
    while k < word.len()
        invariant
            at + word@.len() <= limit <= buf@.len(),
            k <= word@.len(),
            lowered == ascii_lower_seq(buf@.subrange(at as int, at + word@.len())),
            forall|j: int| 0 <= j < k ==> lowered[j] == word@[j],
        decreases word@.len() - k,
    {
        if to_ascii_lower(buf[at + k]) != word[k] {
            assert(lowered[k as int] != word@[k as int]);
            return false;
        }
        k = k + 1;
    }
    assert(lowered =~= word@);
    true
}

/// What a scanner found: where the unit ends and the token read from it.
pub type Scanned = Option<(usize, Option<Token>)>;

/// Where a found unit ends.
pub open spec fn end_of(r: Scanned) -> int {
    match r {
        Some((e, _)) => e as int,
        None => 0,
    }
}

/// The token of a found unit.
pub open spec fn token_of(r: Scanned) -> Option<TokenModel> {
    match r {
        Some((_, t)) => opt_token_view(t),
        None => None,
    }
}

/// Whether `b` ends a tag name: whitespace, `/` or `>`.
pub open spec fn ends_tag_name_spec(b: u8) -> bool {
    b == 0x09 || b == 0x0a || b == 0x0c || b == 0x0d || b == 0x20 || b == 0x2f || b == 0x3e
}

/// The first position at or after `from` that ends a tag name, or the end
/// of `s`.
pub open spec fn tag_name_end(s: Seq<u8>, from: int) -> int
    decreases s.len() - from,
{
    if from < 0 || from >= s.len() {
        s.len() as int
    } else if ends_tag_name_spec(s[from]) {
        from
    } else {
        tag_name_end(s, from + 1)
    }
}

/// Whether a token is a start tag with the given name.
pub open spec fn is_start_tag_named(t: Option<TokenModel>, name: Seq<u8>) -> bool {
    match t {
        Some(TokenModel::StartTag(m)) => m.name == name,
        _ => false,
    }
}

/// A found text run from `start` in the `Data` mode: a character token of
/// every byte up to the next `<` or the end of the input.
pub open spec fn is_data_text_run(buf: Seq<u8>, start: int, r: Scanned) -> bool {
    token_of(r) == Some(TokenModel::Character(buf.subrange(start, end_of(r)))) && (forall|k: int|
        start <= k < end_of(r) ==> buf[k] != 0x3c) && (end_of(r) == buf.len() || buf[end_of(r)]
        == 0x3c)
}

/// A found run that ends just after the first `a b c` at or after `from`;
/// or, where none follows, at the end of the input.
pub open spec fn is_delimited_run(buf: Seq<u8>, from: int, r: Scanned, a: u8, b: u8, c: u8) -> bool {
    (from <= end_of(r) - 3 && three_at(buf, end_of(r) - 3, a, b, c) && (forall|k: int|
        from <= k < end_of(r) - 3 ==> !three_at(buf, k, a, b, c))) || (end_of(r) == buf.len() && (
    forall|k: int| from <= k ==> !three_at(buf, k, a, b, c)))
}

/// The bytes of a delimited run from `from` on, without the delimiter.
pub open spec fn run_body(buf: Seq<u8>, from: int, r: Scanned, a: u8, b: u8, c: u8) -> Seq<u8> {
    if from <= end_of(r) - 3 && three_at(buf, end_of(r) - 3, a, b, c) {
        buf.subrange(from, end_of(r) - 3)
    } else {
        buf.subrange(from, end_of(r))
    }
}

/// Whether the seven bytes two past `start` (just after a `<!`) spell
/// `doctype` in any ASCII case, with no `>` among them.
pub open spec fn opens_doctype(buf: Seq<u8>, start: int) -> bool {
    &&& start + 9 <= buf.len()
    &&& ascii_lower_seq(buf.subrange(start + 2, start + 9)) == seq![
        0x64u8,
        0x6fu8,
        0x63u8,
        0x74u8,
        0x79u8,
        0x70u8,
        0x65u8,
    ]
    &&& forall|k: int| start + 2 <= k < start + 9 ==> buf[k] != 0x3e
}

/// A found doctype unit: it runs to the first `>` and is read from what
/// lies between the keyword and that `>`; or, once the input has ended
/// with no `>`, from all that follows the keyword.
pub open spec fn is_doctype_unit(buf: Seq<u8>, start: int, r: Scanned, at_end: bool) -> bool {
    &&& token_of(r) is Some
    &&& (forall|k: int| start + 2 <= k < end_of(r) - 1 ==> buf[k] != 0x3e)
    &&& if buf[end_of(r) - 1] == 0x3e {
        doctype_read_as(buf, start + 9, end_of(r) - 1, true, token_of(r)->0)
    } else {
        at_end && end_of(r) == buf.len() && doctype_read_as(
            buf,
            start + 9,
            buf.len() as int,
            false,
            token_of(r)->0,
        )
    }
}

/// What a found unit in the `Data` mode is, by the bytes that open it: a
/// text run, a start tag, an end tag or a comment (unfinished tags at the
/// end of input carry no token).
pub open spec fn is_data_unit(buf: Seq<u8>, start: int, r: Scanned, at_end: bool) -> bool {
    &&& buf[start] != 0x3c ==> is_data_text_run(buf, start, r)
    &&& start + 1 < buf.len() && buf[start] == 0x3c && is_ascii_alpha_spec(buf[start + 1]) ==> (
    is_start_tag_named(
        token_of(r),
        ascii_lower_seq(buf.subrange(start + 1, tag_name_end(buf, start + 1))),
    ) && buf[end_of(r) - 1] == 0x3e) || (at_end && token_of(r) is None && end_of(r) == buf.len())
    &&& start + 2 < buf.len() && buf[start] == 0x3c && buf[start + 1] == 0x2f
        && is_ascii_alpha_spec(buf[start + 2]) ==> (token_of(r) == Some(
        TokenModel::EndTag(ascii_lower_seq(buf.subrange(start + 2, tag_name_end(buf, start + 2)))),
    ) && buf[end_of(r) - 1] == 0x3e) || (at_end && token_of(r) is None && end_of(r) == buf.len())
    &&& start + 4 <= buf.len() && buf[start] == 0x3c && buf[start + 1] == 0x21 && buf[start + 2]
        == 0x2d && buf[start + 3] == 0x2d ==> is_delimited_run(buf, start + 4, r, 0x2d, 0x2d, 0x3e)
        && token_of(r) == Some(TokenModel::Comment(run_body(buf, start + 4, r, 0x2d, 0x2d, 0x3e)))
        && (at_end || (start + 4 <= end_of(r) - 3 && three_at(buf, end_of(r) - 3, 0x2d, 0x2d, 0x3e)))
    &&& buf[start] == 0x3c && buf[start + 1] == 0x21 && opens_doctype(buf, start) ==> is_doctype_unit(
        buf,
        start,
        r,
        at_end,
    )
}

/// What a found unit in a raw-text mode is: the end tag that closes the
/// element where one starts at `start`; otherwise a character token of
/// every byte up to the next such end tag or the end of the input.
pub open spec fn is_raw_text_unit(
    buf: Seq<u8>,
    start: int,
    r: Scanned,
    last: Option<u64>,
    at_end: bool,
) -> bool {
    if closes_raw_text_at(buf, start, last) {
        (token_of(r) == Some(
            TokenModel::EndTag(ascii_lower_seq(buf.subrange(start + 2, tag_name_end(buf, start + 2)))),
        ) && buf[end_of(r) - 1] == 0x3e) || (at_end && token_of(r) is None && end_of(r)
            == buf.len())
    } else {
        token_of(r) == Some(TokenModel::Character(buf.subrange(start, end_of(r)))) && (forall|
            k: int,
        |
            start <= k < end_of(r) ==> !closes_raw_text_at(buf, k, last)) && (end_of(r)
            == buf.len() || closes_raw_text_at(buf, end_of(r), last))
    }
}

/// Whether `b` stands somewhere at or after `from`.
pub open spec fn has_byte_from(buf: Seq<u8>, from: int, b: u8) -> bool {
    exists|k: int| from <= k < buf.len() && buf[k] == b
}

/// Whether the bytes from `start` on open a comment with `<!--`.
pub open spec fn opens_comment(buf: Seq<u8>, start: int) -> bool {
    start + 4 <= buf.len() && buf[start + 2] == 0x2d && buf[start + 3] == 0x2d
}

/// In the `Data` mode, no unit that starts at `start` is complete yet: a
/// text run has met no `<`; a start tag has met no `>` (or has a quote,
/// inside which a `>` does not count); a comment has met no `-->`; an end
/// tag or another declaration has met no `>`.
pub open spec fn data_unfinished(buf: Seq<u8>, start: int) -> bool {
    if buf[start] != 0x3c {
        !has_byte_from(buf, start, 0x3c)
    } else if start + 1 >= buf.len() {
        true
    } else if is_ascii_alpha_spec(buf[start + 1]) {
        has_byte_from(buf, start, 0x22) || has_byte_from(buf, start, 0x27) || !has_byte_from(
            buf,
            start,
            0x3e,
        )
    } else if buf[start + 1] == 0x21 {
        (opens_comment(buf, start) && forall|k: int|
            start + 4 <= k ==> !three_at(buf, k, 0x2d, 0x2d, 0x3e)) || !has_byte_from(
            buf,
            start + 2,
            0x3e,
        )
    } else if buf[start + 1] == 0x2f {
        !has_byte_from(buf, start + 2, 0x3e)
    } else if buf[start + 1] == 0x3f {
        !has_byte_from(buf, start + 1, 0x3e)
    } else {
        false
    }
}

/// In a raw-text mode, no unit that starts at `start` is complete yet: the
/// closing end tag there has met no `>`, or, where none starts there, none
/// follows.
pub open spec fn raw_text_unfinished(buf: Seq<u8>, start: int, last: Option<u64>) -> bool {
    if closes_raw_text_at(buf, start, last) {
        !has_byte_from(buf, start + 2, 0x3e)
    } else {
        forall|k: int| start < k ==> !closes_raw_text_at(buf, k, last)
    }
}

/// No unit that starts at `start` is complete yet in the given mode.
pub open spec fn unit_unfinished(buf: Seq<u8>, start: int, mode: TextParsingMode, last: Option<u64>)
    -> bool {
    match mode {
        TextParsingMode::Data => data_unfinished(buf, start),
        TextParsingMode::PlainText => true,
        TextParsingMode::CDataSection => forall|k: int|
            start <= k ==> !three_at(buf, k, 0x5d, 0x5d, 0x3e),
        _ => raw_text_unfinished(buf, start, last),
    }
}

/// A unit that the input ran out in: the rest is one unit without a token
/// at the end of input; otherwise more input is needed.
fn unfinished(buf: &[u8], at_end: bool) -> (r: Scanned)
    ensures
        r is Some ==> end_of(r) == buf@.len() && token_of(r) is None && at_end,
        at_end ==> r is Some,
{
    if at_end {
        Some((buf.len(), None))
    } else {
        None
    }
}

/// The rest of the input as text where no more will come.
fn text_to_end(buf: &[u8], start: usize, at_end: bool) -> (r: Scanned)
    requires
        start < buf@.len(),
    ensures
        r is Some ==> end_of(r) == buf@.len() && token_of(r) == Some(
            TokenModel::Character(buf@.subrange(start as int, buf@.len() as int)),
        ),
        r is Some <==> at_end,
{
    if at_end {
        Some((buf.len(), Some(Token::new_character(copy_range(buf, start, buf.len())))))
    } else {
        None
    }
}

/// Skips whitespace from `i`, stopping at `limit`.
fn skip_whitespace(buf: &[u8], i: usize, limit: usize) -> (r: usize)
    requires
        i <= limit <= buf@.len(),
    ensures
        i <= r <= limit,
        forall|k: int| i <= k < r ==> buf@[k] != 0x3e,
        r == run_end(buf@, i as int, limit as int, true),
{
    let mut j: usize = i;
    while j < limit && is_whitespace(buf[j])
        invariant
            i <= j <= limit <= buf@.len(),
            forall|k: int| i <= k < j ==> buf@[k] != 0x3e,
            run_end(buf@, j as int, limit as int, true) == run_end(buf@, i as int, limit as int, true),
        decreases limit - j,
    {
        j = j + 1;
    }
    j
}

/// Whether `b` is tab, line feed, form feed, carriage return or space.
pub open spec fn is_whitespace_spec(b: u8) -> bool {
    b == 0x09 || b == 0x0a || b == 0x0c || b == 0x0d || b == 0x20
}

/// The first position at or after `i`, before `limit`, whose byte is
/// whitespace exactly when `white` is false; `limit` where there is none.
pub open spec fn run_end(buf: Seq<u8>, i: int, limit: int, white: bool) -> int
    decreases limit - i,
{
    if i < 0 || i >= limit || i >= buf.len() {
        limit
    } else if is_whitespace_spec(buf[i]) == white {
        run_end(buf, i + 1, limit, white)
    } else {
        i
    }
}

/// The doctype that `read_doctype` reads between `from` and `limit`, as far
/// as its name goes: after leading whitespace, the bytes up to the next
/// whitespace in lower case, or none where there are no such bytes. Where
/// nothing but whitespace follows the name, there are no identifiers, and
/// quirks mode is forced exactly when the name is missing or the `>` is.
pub open spec fn doctype_read_as(
    buf: Seq<u8>,
    from: int,
    limit: int,
    closed: bool,
    t: TokenModel,
) -> bool {
    let ns = run_end(buf, from, limit, true);
    let ne = run_end(buf, ns, limit, false);
    match t {
        TokenModel::Doctype(d) => {
            &&& d.name == (if ne > ns {
                Some(ascii_lower_seq(buf.subrange(ns, ne)))
            } else {
                None::<Seq<u8>>
            })
            &&& (!closed || ne == ns) ==> d.force_quirks
            &&& run_end(buf, ne, limit, true) == limit ==> d.public_id is None && d.system_id is None
                && d.force_quirks == (!closed || ne == ns)
        },
        _ => false,
    }
}

/// A start tag from the `<` at `start`, whose next byte is a letter.
pub fn scan_start_tag(buf: &[u8], start: usize, at_end: bool) -> (r: Scanned)
    requires
        start + 1 < buf@.len(),
        buf@[start as int] == 0x3c,
    ensures
        r is Some ==> start < end_of(r) <= buf@.len(),
        at_end ==> r is Some,
        r is Some ==> (is_start_tag_named(
            token_of(r),
            ascii_lower_seq(buf@.subrange(start + 1, tag_name_end(buf@, start + 1))),
        ) && buf@[end_of(r) - 1] == 0x3e) || (at_end && token_of(r) is None && end_of(r)
            == buf@.len()),
        r is None ==> has_byte_from(buf@, start as int, 0x22) || has_byte_from(
            buf@,
            start as int,
            0x27,
        ) || !has_byte_from(buf@, start as int, 0x3e),
{
    let len = buf.len();
    let ghost no_quotes = !has_byte_from(buf@, start as int, 0x22) && !has_byte_from(
        buf@,
        start as int,
        0x27,
    );
    let mut i: usize = start + 1;
    while i < len && !ends_tag_name(buf[i])
        invariant
            start + 1 <= i <= len == buf@.len(),
            tag_name_end(buf@, i as int) == tag_name_end(buf@, start + 1),
            forall|k: int| start + 1 <= k < i ==> buf@[k] != 0x3e,
        decreases len - i,
    {
        i = i + 1;
    }
    assert(tag_name_end(buf@, i as int) == i as int);
    let name = copy_range_lower(buf, start + 1, i);
    let ghost name_view = ascii_lower_seq(buf@.subrange(start + 1, tag_name_end(buf@, start + 1)));
    let mut attributes: ParsedAttributeList = Vec::new();
    let mut self_closing = false;
    while i < len
        invariant
            start + 1 <= i <= len == buf@.len(),
            name@ == name_view,
            name_view == ascii_lower_seq(buf@.subrange(start + 1, tag_name_end(buf@, start + 1))),
            no_quotes ==> forall|k: int| start + 1 <= k < i ==> buf@[k] != 0x3e,
            buf@[start as int] == 0x3c,
            no_quotes == (!has_byte_from(buf@, start as int, 0x22) && !has_byte_from(
                buf@,
                start as int,
                0x27,
            )),
        decreases len - i,
    {
        let b = buf[i];
        if b == 0x3e {
            return Some((i + 1, Some(Token::new_start_tag(name, attributes, self_closing))));
        } else if is_whitespace(b) {
            self_closing = false;
            i = i + 1;
        } else if b == 0x2f {
            i = i + 1;
            self_closing = i < len && buf[i] == 0x3e;
        } else {
            self_closing = false;
            let name_start = i;
            i = i + 1;
            while i < len && !ends_tag_name(buf[i]) && buf[i] != 0x3d
                invariant
                    name_start < i <= len == buf@.len(),
                    start + 1 <= name_start,
                    buf@[name_start as int] != 0x3e,
                    no_quotes ==> forall|k: int| start + 1 <= k < i ==> buf@[k] != 0x3e,
                decreases len - i,
            {
                i = i + 1;
            }
            let attr_name = copy_range_lower(buf, name_start, i);
            let mut value: Bytes = Vec::new();
            let j = skip_whitespace(buf, i, len);
            if j < len && buf[j] == 0x3d {
                i = skip_whitespace(buf, j + 1, len);
                if i >= len {
                    assert(no_quotes ==> !has_byte_from(buf@, start as int, 0x3e)) by {
                        if no_quotes && has_byte_from(buf@, start as int, 0x3e) {
                            let k = choose|k: int| start <= k < buf@.len() && buf@[k] == 0x3e;
                            assert(k != start);
                            assert(start + 1 <= k < j || j <= k < j + 1 || j + 1 <= k < i);
                        }
                    }
                    return unfinished(buf, at_end);
                }
                let q = buf[i];
                if q == 0x22 || q == 0x27 {
                    assert(!no_quotes) by {
                        assert(start <= i < buf@.len() && buf@[i as int] == q);
                    }
                    match find_byte(buf, i + 1, q) {
                        Some(k) => {
                            value = copy_range(buf, i + 1, k);
                            i = k + 1;
                        },
                        None => {
                            return unfinished(buf, at_end);
                        },
                    }
                } else {
                    let value_start = i;
                    while i < len && !is_whitespace(buf[i]) && buf[i] != 0x3e
                        invariant
                            value_start <= i <= len == buf@.len(),
                            start + 1 <= value_start,
                            no_quotes ==> forall|k: int| start + 1 <= k < i ==> buf@[k] != 0x3e,
                        decreases len - i,
                    {
                        i = i + 1;
                    }
                    value = copy_range(buf, value_start, i);
                }
            }
            attributes.push(Attribute::new(attr_name, value));
        }
    }
    assert(no_quotes ==> !has_byte_from(buf@, start as int, 0x3e)) by {
        if no_quotes && has_byte_from(buf@, start as int, 0x3e) {
            let k = choose|k: int| start <= k < buf@.len() && buf@[k] == 0x3e;
            assert(k != start);
        }
    }
    unfinished(buf, at_end)
}

/// An end tag from the `</` at `start`, whose next byte is a letter; what
/// follows its name up to `>` is skipped.
pub fn scan_end_tag(buf: &[u8], start: usize, at_end: bool) -> (r: Scanned)
    requires
        start + 2 < buf@.len(),
    ensures
        r is Some ==> start < end_of(r) <= buf@.len(),
        at_end ==> r is Some,
        r is Some ==> (token_of(r) == Some(
            TokenModel::EndTag(
                ascii_lower_seq(buf@.subrange(start + 2, tag_name_end(buf@, start + 2))),
            ),
        ) && buf@[end_of(r) - 1] == 0x3e) || (at_end && token_of(r) is None && end_of(r)
            == buf@.len()),
        r is None ==> !has_byte_from(buf@, start + 2, 0x3e),
{
    let len = buf.len();
    let mut i: usize = start + 2;
    while i < len && !ends_tag_name(buf[i])
        invariant
            start + 2 <= i <= len == buf@.len(),
            tag_name_end(buf@, i as int) == tag_name_end(buf@, start + 2),
            forall|k: int| start + 2 <= k < i ==> buf@[k] != 0x3e,
        decreases len - i,
    {
        i = i + 1;
    }
    assert(tag_name_end(buf@, i as int) == i as int);
    match find_byte(buf, i, 0x3e) {
        Some(j) => Some((j + 1, Some(Token::new_end_tag(copy_range_lower(buf, start + 2, i))))),
        None => unfinished(buf, at_end),
    }
}

/// A quoted doctype identifier at `i`, before `limit`: its text and the
/// position after it, or `None` where no quote opens it or none closes it.
fn scan_quoted(buf: &[u8], i: usize, limit: usize) -> (r: Option<(Bytes, usize)>)
    requires
        i <= limit <= buf@.len(),
    ensures
        match r {
            Some((_, j)) => i < j <= limit,
            None => true,
        },
{
    if i >= limit {
        return None;
    }
    let q = buf[i];
    if q != 0x22 && q != 0x27 {
        return None;
    }
    let mut k: usize = i + 1;
    while k < limit && buf[k] != q
        invariant
            i < k <= limit <= buf@.len(),
        decreases limit - k,
    {
        k = k + 1;
    }
    if k >= limit {
        None
    } else {
        Some((copy_range(buf, i + 1, k), k + 1))
    }
}

/// A doctype whose keyword ends at `from` and whose `>` stands at `limit`
/// (or the input's end where `closed` is false): a lower-case name, then
/// the optional `PUBLIC` or `SYSTEM` identifiers. Anything missing or out
/// of place forces quirks mode.
fn read_doctype(buf: &[u8], from: usize, limit: usize, closed: bool) -> (r: Token)
    requires
        from <= limit <= buf@.len(),
    ensures
        doctype_read_as(buf@, from as int, limit as int, closed, r@),
{
    let mut force_quirks = !closed;
    let mut i = skip_whitespace(buf, from, limit);
    let name_start = i;
    while i < limit && !is_whitespace(buf[i])
        invariant
            name_start <= i <= limit <= buf@.len(),
            run_end(buf@, i as int, limit as int, false) == run_end(
                buf@,
                name_start as int,
                limit as int,
                false,
            ),
        decreases limit - i,
    {
        i = i + 1;
    }
    let name = if i > name_start {
        Some(copy_range_lower(buf, name_start, i))
    } else {
        force_quirks = true;
        None
    };
    let mut public_id: Option<Bytes> = None;
    let mut system_id: Option<Bytes> = None;
    i = skip_whitespace(buf, i, limit);
    if i < limit {
        let public_word: Vec<u8> = vec![0x70, 0x75, 0x62, 0x6c, 0x69, 0x63];
        let system_word: Vec<u8> = vec![0x73, 0x79, 0x73, 0x74, 0x65, 0x6d];
        let is_public = matches_word_ignoring_case(buf, i, limit, public_word.as_slice());
        let is_system = matches_word_ignoring_case(buf, i, limit, system_word.as_slice());
        if (is_public || is_system) && limit - i >= 6 {
            i = skip_whitespace(buf, i + 6, limit);
            match scan_quoted(buf, i, limit) {
                Some((text, j)) => {
                    if is_public {
                        public_id = Some(text);
                        i = skip_whitespace(buf, j, limit);
                        if i < limit {
                            match scan_quoted(buf, i, limit) {
                                Some((text2, k)) => {
                                    system_id = Some(text2);
                                    i = skip_whitespace(buf, k, limit);
                                },
                                None => {
                                    force_quirks = true;
                                },
                            }
                        }
                    } else {
                        system_id = Some(text);
                        i = skip_whitespace(buf, j, limit);
                    }
                    if i < limit {
                        force_quirks = true;
                    }
                },
                None => {
                    force_quirks = true;
                },
            }
        } else {
            force_quirks = true;
        }
    }
    Token::new_doctype(name, public_id, system_id, force_quirks)
}

/// A markup declaration from the `<!` at `start`: a comment up to `-->`, a
/// doctype, or anything else as a comment up to `>`.
pub fn scan_markup_declaration(buf: &[u8], start: usize, at_end: bool) -> (r: Scanned)
    requires
        start + 1 < buf@.len(),
    ensures
        r is Some ==> start < end_of(r) <= buf@.len(),
        at_end ==> r is Some,
        start + 4 <= buf@.len() && buf@[start + 2] == 0x2d && buf@[start + 3] == 0x2d && r is Some
            ==> is_delimited_run(buf@, start + 4, r, 0x2d, 0x2d, 0x3e) && token_of(r) == Some(
            TokenModel::Comment(run_body(buf@, start + 4, r, 0x2d, 0x2d, 0x3e)),
        ) && (at_end || (start + 4 <= end_of(r) - 3 && three_at(buf@, end_of(r) - 3, 0x2d, 0x2d, 0x3e))),
        opens_doctype(buf@, start as int) && r is Some ==> is_doctype_unit(buf@, start as int, r, at_end),
        r is None ==> (opens_comment(buf@, start as int) && forall|k: int|
            start + 4 <= k ==> !three_at(buf@, k, 0x2d, 0x2d, 0x3e)) || !has_byte_from(
            buf@,
            start + 2,
            0x3e,
        ),
{
    let len = buf.len();
    if len - start >= 4 && buf[start + 2] == 0x2d && buf[start + 3] == 0x2d {
        return match find_three(buf, start + 4, 0x2d, 0x2d, 0x3e) {
            Some(j) => Some((j + 3, Some(Token::new_comment(copy_range(buf, start + 4, j))))),
            None => if at_end {
                Some((len, Some(Token::new_comment(copy_range(buf, start + 4, len)))))
            } else {
                None
            },
        };
    }
    if !at_end && len - start < 4 && (len - start == 2 || buf[start + 2] == 0x2d) {
        return None;
    }
    let doctype_word: Vec<u8> = vec![0x64, 0x6f, 0x63, 0x74, 0x79, 0x70, 0x65];
    assert(doctype_word@ =~= seq![0x64u8, 0x6fu8, 0x63u8, 0x74u8, 0x79u8, 0x70u8, 0x65u8]);
    let close = find_byte(buf, start + 2, 0x3e);
    let limit = match close {
        Some(j) => j,
        None => len,
    };
    if close.is_none() && !at_end {
        return None;
    }
    let end = match close {
        Some(j) => j + 1,
        None => len,
    };
    if matches_word_ignoring_case(buf, start + 2, limit, doctype_word.as_slice()) && limit - (
    start + 2) >= 7 {
        Some((end, Some(read_doctype(buf, start + 9, limit, close.is_some()))))
    } else {
        Some((end, Some(Token::new_comment(copy_range(buf, start + 2, limit)))))
    }
}

/// A unit in the `Data` mode: text up to the next `<`, or the markup that
/// starts at `start`.
pub fn scan_data(buf: &[u8], start: usize, at_end: bool) -> (r: Scanned)
    requires
        start < buf@.len(),
    ensures
        r is Some ==> start < end_of(r) <= buf@.len(),
        at_end ==> r is Some,
        r is Some ==> is_data_unit(buf@, start as int, r, at_end),
        r is None ==> data_unfinished(buf@, start as int),
{
    let len = buf.len();
    if buf[start] != 0x3c {
        return match find_byte(buf, start, 0x3c) {
            Some(j) => Some((j, Some(Token::new_character(copy_range(buf, start, j))))),
            None => text_to_end(buf, start, at_end),
        };
    }
    if start + 1 >= len {
        return text_to_end(buf, start, at_end);
    }
    let b = buf[start + 1];
    if is_ascii_alpha(b) {
        scan_start_tag(buf, start, at_end)
    } else if b == 0x21 {
        scan_markup_declaration(buf, start, at_end)
    } else if b == 0x2f {
        if start + 2 >= len {
            return text_to_end(buf, start, at_end);
        }
        let c = buf[start + 2];
        if is_ascii_alpha(c) {
            scan_end_tag(buf, start, at_end)
        } else if c == 0x3e {
            Some((start + 3, None))
        } else {
            match find_byte(buf, start + 2, 0x3e) {
                Some(j) => Some((j + 1, Some(Token::new_comment(copy_range(buf, start + 2, j))))),
                None => if at_end {
                    Some((len, Some(Token::new_comment(copy_range(buf, start + 2, len)))))
                } else {
                    None
                },
            }
        }
    } else if b == 0x3f {
        match find_byte(buf, start + 1, 0x3e) {
            Some(j) => Some((j + 1, Some(Token::new_comment(copy_range(buf, start + 1, j))))),
            None => if at_end {
                Some((len, Some(Token::new_comment(copy_range(buf, start + 1, len)))))
            } else {
                None
            },
        }
    } else {
        Some((start + 1, Some(Token::new_character(copy_range(buf, start, start + 1)))))
    }
}

/// Whether an end tag that closes the raw-text element whose name has the
/// code `last` starts at `i`: `</`, a name of that code, then whitespace,
/// `/` or `>`.
pub open spec fn closes_raw_text_at(buf: Seq<u8>, i: int, last: Option<u64>) -> bool {
    let k = tag_name_end(buf, i + 2);
    &&& 0 <= i && i + 2 < buf.len()
    &&& buf[i] == 0x3c && buf[i + 1] == 0x2f
    &&& i + 2 < k < buf.len()
    &&& last is Some && spec_hash(buf.subrange(i + 2, k)) == last
}

/// Whether an end tag that closes the current raw-text element starts at
/// `i`: `</`, a name whose code is `last`, then whitespace, `/` or `>`.
/// `None` where the input ends before that can be told.
fn closing_tag_at(buf: &[u8], i: usize, last: Option<u64>) -> (r: Option<bool>)
    requires
        i < buf@.len(),
    ensures
        r is Some ==> r->0 == closes_raw_text_at(buf@, i as int, last),
        r is None ==> forall|k: int| i <= k ==> !closes_raw_text_at(buf@, k, last),
{
    let len = buf.len();
    if buf[i] != 0x3c {
        return Some(false);
    }
    if i + 1 >= len {
        return None;
    }
    if buf[i + 1] != 0x2f {
        return Some(false);
    }
    let mut k: usize = i + 2;
    let mut code: Option<u64> = Some(0);
    while k < len && !ends_tag_name(buf[k])
        invariant
            i + 2 <= k <= len == buf@.len(),
            code == spec_hash(buf@.subrange(i + 2, k as int)),
            forall|j: int| i + 2 <= j < k ==> !ends_tag_name_spec(#[trigger] buf@[j]),
            tag_name_end(buf@, k as int) == tag_name_end(buf@, i + 2),
        decreases len - k,
    {
        code = update_tag_name_hash(code, buf[k]);
        k = k + 1;
        assert(buf@.subrange(i + 2, k as int).drop_last() =~= buf@.subrange(i + 2, k - 1));
    }
    assert(tag_name_end(buf@, k as int) == k as int);
    if k >= len {
        return None;
    }
    match (code, last) {
        (Some(c), Some(l)) => Some(k > i + 2 && c == l),
        _ => Some(false),
    }
}

/// A unit in the `RcData`, `RawText` and `ScriptData` modes: text up to the
/// end tag that closes the element, or that end tag.
pub fn scan_raw_text(buf: &[u8], start: usize, last: Option<u64>, at_end: bool) -> (r: Scanned)
    requires
        start < buf@.len(),
    ensures
        r is Some ==> start < end_of(r) <= buf@.len(),
        at_end ==> r is Some,
        r is Some ==> is_raw_text_unit(buf@, start as int, r, last, at_end),
        r is None ==> raw_text_unfinished(buf@, start as int, last),
{
    let len = buf.len();
    let mut i: usize = start;
    while i < len
        invariant
            start <= i <= len == buf@.len(),
            forall|k: int| start <= k < i ==> !closes_raw_text_at(buf@, k, last),
        decreases len - i,
    {
        match closing_tag_at(buf, i, last) {
            Some(true) => {
                if i == start {
                    return scan_end_tag(buf, start, at_end);
                }
                return Some((i, Some(Token::new_character(copy_range(buf, start, i)))));
            },
            Some(false) => {},
            None => {
                if !at_end {
                    return None;
                }
            },
        }
        i = i + 1;
    }
    text_to_end(buf, start, at_end)
}

/// A unit in the `CDataSection` mode: text up to and with `]]>`.
pub fn scan_cdata(buf: &[u8], start: usize, at_end: bool) -> (r: Scanned)
    requires
        start < buf@.len(),
    ensures
        r is Some ==> start < end_of(r) <= buf@.len(),
        at_end ==> r is Some,
        r is Some ==> is_delimited_run(buf@, start as int, r, 0x5d, 0x5d, 0x3e) && token_of(r)
            == Some(TokenModel::Character(run_body(buf@, start as int, r, 0x5d, 0x5d, 0x3e))) && (
        at_end || (start <= end_of(r) - 3 && three_at(buf@, end_of(r) - 3, 0x5d, 0x5d, 0x3e))),
        r is None ==> forall|k: int| start <= k ==> !three_at(buf@, k, 0x5d, 0x5d, 0x3e),
{
    let len = buf.len();
    assert(start < len);
    match find_three(buf, start, 0x5d, 0x5d, 0x3e) {
        Some(j) => Some((j + 3, Some(Token::new_character(copy_range(buf, start, j))))),
        None => text_to_end(buf, start, at_end),
    }
}

/// The next unit in the given mode.
pub fn scan_unit(buf: &[u8], start: usize, mode: TextParsingMode, last: Option<u64>, at_end: bool)
    -> (r: Scanned)
    requires
        start < buf@.len(),
    ensures
        r is Some ==> start < end_of(r) <= buf@.len(),
        at_end ==> r is Some,
        mode == TextParsingMode::Data && r is Some ==> is_data_unit(buf@, start as int, r, at_end),
        (mode == TextParsingMode::RcData || mode == TextParsingMode::RawText || mode
            == TextParsingMode::ScriptData) && r is Some ==> is_raw_text_unit(
            buf@,
            start as int,
            r,
            last,
            at_end,
        ),
        mode == TextParsingMode::CDataSection && r is Some ==> is_delimited_run(
            buf@,
            start as int,
            r,
            0x5d,
            0x5d,
            0x3e,
        ) && token_of(r) == Some(
            TokenModel::Character(run_body(buf@, start as int, r, 0x5d, 0x5d, 0x3e)),
        ) && (at_end || (start <= end_of(r) - 3 && three_at(buf@, end_of(r) - 3, 0x5d, 0x5d, 0x3e))),
        r is None ==> unit_unfinished(buf@, start as int, mode, last),
        mode == TextParsingMode::PlainText ==> (r is Some <==> at_end) && (r is Some ==> end_of(r)
            == buf@.len() && token_of(r) == Some(
            TokenModel::Character(buf@.subrange(start as int, buf@.len() as int)),
        )),
{
    match mode {
        TextParsingMode::Data => scan_data(buf, start, at_end),
        TextParsingMode::RcData | TextParsingMode::RawText | TextParsingMode::ScriptData => {
            scan_raw_text(buf, start, last, at_end)
        },
        TextParsingMode::PlainText => text_to_end(buf, start, at_end),
        TextParsingMode::CDataSection => scan_cdata(buf, start, at_end),
    }
}

} // verus!
