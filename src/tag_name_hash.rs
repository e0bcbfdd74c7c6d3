//! Fast tag-name matching: a tag name made of ASCII letters and the digits
//! `1`..`6` is packed into a `u64`, five bits per character, so that a name
//! can be compared with a well-known one by a single integer comparison.
use vstd::prelude::*;
use vstd::string::StringSliceAdditionalSpecFns;

verus! {

/// Largest code after which one more character still fits: the top five
/// bits of the code must be clear before it is shifted left by five.
pub const HASH_ROOM_LIMIT: u64 = 0x0800_0000_0000_0000;

/// Whether `ch` can take part in a tag-name code.
pub open spec fn is_hash_char(ch: u8) -> bool {
    (0x61 <= ch <= 0x7a) || (0x41 <= ch <= 0x5a) || (0x31 <= ch <= 0x36)
}

/// The five-bit symbol of a hashable character: `1`..`6` become 0..5 and
/// letters, regardless of case, become 6..31.
pub open spec fn hash_symbol(ch: u8) -> int {
    if 0x61 <= ch <= 0x7a {
        ch - 0x61 + 6
    } else if 0x41 <= ch <= 0x5a {
        ch - 0x41 + 6
    } else {
        ch - 0x31
    }
}

/// One step of the encoding: an invalid code stays invalid; a code with no
/// room left, or a character outside the alphabet, invalidates it; otherwise
/// the symbol is appended as the low five bits.
pub open spec fn spec_update(hash: Option<u64>, ch: u8) -> Option<u64> {
    match hash {
        Some(h) => if h < HASH_ROOM_LIMIT && is_hash_char(ch) {
            Some((h * 32 + hash_symbol(ch)) as u64)
        } else {
            None
        },
        None => None,
    }
}

/// The code of a whole name, folding `spec_update` from the left over its
/// bytes, starting from zero.
pub open spec fn spec_hash(name: Seq<u8>) -> Option<u64>
    decreases name.len(),
{
    if name.len() == 0 {
        Some(0)
    } else {
        spec_update(spec_hash(name.drop_last()), name.last())
    }
}

/// Well-known tag names whose codes are compared on the hot path.
#[derive(Debug, Clone, Copy, PartialEq, Eq, Structural)]
pub enum TagNameHash {
    Svg,
    Math,
    H1,
    Script,
    Style,
    Title,
    Textarea,
    Xmp,
    Iframe,
    Noembed,
    Noframes,
    Plaintext,
}

pub const SVG_TAG_HASH: u64 = 25452;

pub const MATH_TAG_HASH: u64 = 596781;

pub const H1_TAG_HASH: u64 = 416;

pub const SCRIPT_TAG_HASH: u64 = 814463673;

pub const STYLE_TAG_HASH: u64 = 26016298;

pub const TITLE_TAG_HASH: u64 = 26699306;

pub const TEXTAREA_TAG_HASH: u64 = 870730390854;

pub const XMP_TAG_HASH: u64 = 30293;

pub const IFRAME_TAG_HASH: u64 = 482056778;

pub const NOEMBED_TAG_HASH: u64 = 21083266377;

pub const NOFRAMES_TAG_HASH: u64 = 674703296856;

pub const PLAINTEXT_TAG_HASH: u64 = 23680792701881;

impl TagNameHash {
    pub open spec fn spec_value(self) -> u64 {
        match self {
            TagNameHash::Svg => SVG_TAG_HASH,
            TagNameHash::Math => MATH_TAG_HASH,
            TagNameHash::H1 => H1_TAG_HASH,
            TagNameHash::Script => SCRIPT_TAG_HASH,
            TagNameHash::Style => STYLE_TAG_HASH,
            TagNameHash::Title => TITLE_TAG_HASH,
            TagNameHash::Textarea => TEXTAREA_TAG_HASH,
            TagNameHash::Xmp => XMP_TAG_HASH,
            TagNameHash::Iframe => IFRAME_TAG_HASH,
            TagNameHash::Noembed => NOEMBED_TAG_HASH,
            TagNameHash::Noframes => NOFRAMES_TAG_HASH,
            TagNameHash::Plaintext => PLAINTEXT_TAG_HASH,
        }
    }

    /// The lower-case name that the constant stands for.
    pub open spec fn spec_name(self) -> Seq<u8> {
        match self {
            TagNameHash::Svg => seq![0x73u8, 0x76u8, 0x67u8],
            TagNameHash::Math => seq![0x6du8, 0x61u8, 0x74u8, 0x68u8],
            TagNameHash::H1 => seq![0x68u8, 0x31u8],
            TagNameHash::Script => seq![0x73u8, 0x63u8, 0x72u8, 0x69u8, 0x70u8, 0x74u8],
            TagNameHash::Style => seq![0x73u8, 0x74u8, 0x79u8, 0x6cu8, 0x65u8],
            TagNameHash::Title => seq![0x74u8, 0x69u8, 0x74u8, 0x6cu8, 0x65u8],
            TagNameHash::Textarea => seq![0x74u8, 0x65u8, 0x78u8, 0x74u8, 0x61u8, 0x72u8, 0x65u8, 0x61u8],
            TagNameHash::Xmp => seq![0x78u8, 0x6du8, 0x70u8],
            TagNameHash::Iframe => seq![0x69u8, 0x66u8, 0x72u8, 0x61u8, 0x6du8, 0x65u8],
            TagNameHash::Noembed => seq![0x6eu8, 0x6fu8, 0x65u8, 0x6du8, 0x62u8, 0x65u8, 0x64u8],
            TagNameHash::Noframes => seq![0x6eu8, 0x6fu8, 0x66u8, 0x72u8, 0x61u8, 0x6du8, 0x65u8, 0x73u8],
            TagNameHash::Plaintext => seq![0x70u8, 0x6cu8, 0x61u8, 0x69u8, 0x6eu8, 0x74u8, 0x65u8, 0x78u8, 0x74u8],
        }
    }

    /// The precomputed code of this well-known name.
    pub fn value(&self) -> (r: u64)
        ensures
            r == self.spec_value(),
    {
        match self {
            TagNameHash::Svg => SVG_TAG_HASH,
            TagNameHash::Math => MATH_TAG_HASH,
            TagNameHash::H1 => H1_TAG_HASH,
            TagNameHash::Script => SCRIPT_TAG_HASH,
            TagNameHash::Style => STYLE_TAG_HASH,
            TagNameHash::Title => TITLE_TAG_HASH,
            TagNameHash::Textarea => TEXTAREA_TAG_HASH,
            TagNameHash::Xmp => XMP_TAG_HASH,
            TagNameHash::Iframe => IFRAME_TAG_HASH,
            TagNameHash::Noembed => NOEMBED_TAG_HASH,
            TagNameHash::Noframes => NOFRAMES_TAG_HASH,
            TagNameHash::Plaintext => PLAINTEXT_TAG_HASH,
        }
    }
}

/// Appends one character of a tag name to its code, as `spec_update` says.
pub fn update_tag_name_hash(hash: Option<u64>, ch: u8) -> (r: Option<u64>)
    ensures
        r == spec_update(hash, ch),
{
    match hash {
        Some(h) => {
            if h >> 59u64 == 0 {
                assert(h >> 59u64 == 0 <==> h < 0x0800_0000_0000_0000u64) by (bit_vector);
                if (0x61 <= ch && ch <= 0x7a) || (0x41 <= ch && ch <= 0x5a) {
                    let c: u64 = ch as u64;
                    assert((0x61 <= c <= 0x7a) ==> (c & 0x1F) == c - 0x60) by (bit_vector);
                    assert((0x41 <= c <= 0x5a) ==> (c & 0x1F) == c - 0x40) by (bit_vector);
                    let s: u64 = (c & 0x1F) + 5;
                    assert(h < 0x0800_0000_0000_0000u64 && s < 32 ==> (h << 5u64) | s == h * 32 + s)
                        by (bit_vector);
                    Some((h << 5) | s)
                } else if 0x31 <= ch && ch <= 0x36 {
                    let c: u64 = ch as u64;
                    assert((0x31 <= c <= 0x36) ==> (c & 0x0F) == c - 0x30) by (bit_vector);
                    let s: u64 = (c & 0x0F) - 1;
                    assert(h < 0x0800_0000_0000_0000u64 && s < 32 ==> (h << 5u64) | s == h * 32 + s)
                        by (bit_vector);
                    Some((h << 5) | s)
                } else {
                    None
                }
            } else {
                assert(h >> 59u64 != 0 ==> h >= 0x0800_0000_0000_0000u64) by (bit_vector);
                None
            }
        },
        None => None,
    }
}

/// The code of a whole tag name, or `None` where it cannot be encoded.
pub fn get_tag_name_hash(name: &str) -> (r: Option<u64>)
    ensures
        r == spec_hash(name.spec_bytes()),
{
    tag_name_hash_of_bytes(name.as_bytes())
}

/// The code of a tag name given as bytes.
pub fn tag_name_hash_of_bytes(bytes: &[u8]) -> (r: Option<u64>)
    ensures
        r == spec_hash(bytes@),
{
    let mut hash: Option<u64> = Some(0);
    let mut i: usize = 0;
    while i < bytes.len()
        invariant
            0 <= i <= bytes@.len(),
            hash == spec_hash(bytes@.subrange(0, i as int)),
        decreases bytes@.len() - i,
    {
        hash = update_tag_name_hash(hash, bytes[i]);
        i = i + 1;
        assert(bytes@.subrange(0, i as int).drop_last() =~= bytes@.subrange(0, i - 1));
    }
    assert(bytes@.subrange(0, i as int) =~= bytes@);
    hash
}

/// ASCII lower case of one byte.
pub open spec fn ascii_lower(ch: u8) -> u8 {
    if 0x41 <= ch <= 0x5a {
        (ch + 0x20) as u8
    } else {
        ch
    }
}

/// ASCII lower case of a name, byte by byte.
pub open spec fn ascii_lower_seq(name: Seq<u8>) -> Seq<u8> {
    Seq::new(name.len(), |i: int| ascii_lower(name[i]))
}

/// Whether a name is empty or does not start with `1`, the digit whose
/// symbol is zero (no standard tag name starts with a digit).
pub open spec fn starts_like_tag_name(name: Seq<u8>) -> bool {
    name.len() == 0 || name[0] != 0x31
}

/// The symbols of a name, one per byte.
pub open spec fn symbols(name: Seq<u8>) -> Seq<int> {
    Seq::new(name.len(), |i: int| hash_symbol(name[i]))
}

/// The number whose base-32 digits, most significant first, are `digits`.
pub open spec fn base32(digits: Seq<int>) -> int
    decreases digits.len(),
{
    if digits.len() == 0 {
        0
    } else {
        base32(digits.drop_last()) * 32 + digits.last()
    }
}

proof fn lemma_hash_is_base32(name: Seq<u8>)
    requires
        spec_hash(name) is Some,
    ensures
        forall|i: int| 0 <= i < name.len() ==> is_hash_char(#[trigger] name[i]),
        spec_hash(name)->0 as int == base32(symbols(name)),
    decreases name.len(),
{
    if name.len() > 0 {
        let p = name.drop_last();
        lemma_hash_is_base32(p);
        assert(symbols(name).drop_last() =~= symbols(p));
        assert forall|i: int| 0 <= i < name.len() implies is_hash_char(#[trigger] name[i]) by {
            if i < p.len() {
                assert(name[i] == p[i]);
            }
        }
    }
}

proof fn lemma_base32_positive(digits: Seq<int>)
    requires
        digits.len() > 0,
        digits[0] > 0,
        forall|i: int| 0 <= i < digits.len() ==> 0 <= #[trigger] digits[i] < 32,
    ensures
        base32(digits) > 0,
    decreases digits.len(),
{
    if digits.len() > 1 {
        let p = digits.drop_last();
        assert forall|i: int| 0 <= i < p.len() implies 0 <= #[trigger] p[i] < 32 by {
            assert(p[i] == digits[i]);
        }
        lemma_base32_positive(p);
        let x = base32(p);
        let d = digits.last();
        assert(x * 32 + d > 0) by (nonlinear_arith)
            requires
                x > 0,
                d >= 0,
        ;
    } else {
        assert(base32(digits.drop_last()) == 0);
        assert(digits.last() == digits[0]);
    }
}

proof fn lemma_base32_injective(a: Seq<int>, b: Seq<int>)
    requires
        a.len() == 0 || a[0] > 0,
        b.len() == 0 || b[0] > 0,
        forall|i: int| 0 <= i < a.len() ==> 0 <= #[trigger] a[i] < 32,
        forall|i: int| 0 <= i < b.len() ==> 0 <= #[trigger] b[i] < 32,
        base32(a) == base32(b),
    ensures
        a == b,
    decreases a.len() + b.len(),
{
    if a.len() == 0 && b.len() > 0 {
        lemma_base32_positive(b);
    } else if b.len() == 0 && a.len() > 0 {
        lemma_base32_positive(a);
    } else if a.len() > 0 && b.len() > 0 {
        let pa = a.drop_last();
        let pb = b.drop_last();
        let x = base32(pa);
        let y = base32(pb);
        assert(x * 32 + a.last() == y * 32 + b.last());
        assert(x == y && a.last() == b.last()) by (nonlinear_arith)
            requires
                x * 32 + a.last() == y * 32 + b.last(),
                0 <= a.last() < 32,
                0 <= b.last() < 32,
        ;
        assert forall|i: int| 0 <= i < pa.len() implies 0 <= #[trigger] pa[i] < 32 by {
            assert(pa[i] == a[i]);
        }
        assert forall|i: int| 0 <= i < pb.len() implies 0 <= #[trigger] pb[i] < 32 by {
            assert(pb[i] == b[i]);
        }
        lemma_base32_injective(pa, pb);
        assert(a =~= pa.push(a.last()));
        assert(b =~= pb.push(b.last()));
    }
}

/// Two names that are empty or do not start with `1`, and that both have a
/// code, get the same code only if they are the same name
/// up to ASCII case. Without the condition on the first byte it fails: a
/// leading `1` is the zero symbol, so `1a` and `a` share a code.
pub proof fn lemma_tag_name_hash_injective(a: Seq<u8>, b: Seq<u8>)
    requires
        starts_like_tag_name(a),
        starts_like_tag_name(b),
        spec_hash(a) is Some,
        spec_hash(a) == spec_hash(b),
    ensures
        ascii_lower_seq(a) == ascii_lower_seq(b),
{
    lemma_hash_is_base32(a);
    lemma_hash_is_base32(b);
    let sa = symbols(a);
    let sb = symbols(b);
    assert forall|i: int| 0 <= i < sa.len() implies 0 <= #[trigger] sa[i] < 32 by {
        assert(is_hash_char(a[i]));
    }
    assert forall|i: int| 0 <= i < sb.len() implies 0 <= #[trigger] sb[i] < 32 by {
        assert(is_hash_char(b[i]));
    }
    lemma_base32_injective(sa, sb);
    assert(a.len() == b.len()) by {
        assert(sa.len() == sb.len());
    }
    assert forall|i: int| 0 <= i < a.len() implies ascii_lower(a[i]) == ascii_lower(b[i]) by {
        assert(sa[i] == sb[i]);
        assert(is_hash_char(a[i]) && is_hash_char(b[i]));
    }
    assert(ascii_lower_seq(a) =~= ascii_lower_seq(b));
}

proof fn lemma_known_hash_svg()
    ensures
        spec_hash(TagNameHash::Svg.spec_name()) == Some(TagNameHash::Svg.spec_value()),
{
    reveal_with_fuel(spec_hash, 4);
    broadcast use vstd::seq_lib::group_seq_properties;

}

proof fn lemma_known_hash_math()
    ensures
        spec_hash(TagNameHash::Math.spec_name()) == Some(TagNameHash::Math.spec_value()),
{
    reveal_with_fuel(spec_hash, 5);
    broadcast use vstd::seq_lib::group_seq_properties;

}

proof fn lemma_known_hash_h1()
    ensures
        spec_hash(TagNameHash::H1.spec_name()) == Some(TagNameHash::H1.spec_value()),
{
    reveal_with_fuel(spec_hash, 3);
    broadcast use vstd::seq_lib::group_seq_properties;

}

proof fn lemma_known_hash_script()
    ensures
        spec_hash(TagNameHash::Script.spec_name()) == Some(TagNameHash::Script.spec_value()),
{
    reveal_with_fuel(spec_hash, 7);
    broadcast use vstd::seq_lib::group_seq_properties;

}

proof fn lemma_known_hash_style()
    ensures
        spec_hash(TagNameHash::Style.spec_name()) == Some(TagNameHash::Style.spec_value()),
{
    reveal_with_fuel(spec_hash, 6);
    broadcast use vstd::seq_lib::group_seq_properties;

}

proof fn lemma_known_hash_title()
    ensures
        spec_hash(TagNameHash::Title.spec_name()) == Some(TagNameHash::Title.spec_value()),
{
    reveal_with_fuel(spec_hash, 6);
    broadcast use vstd::seq_lib::group_seq_properties;

}

proof fn lemma_known_hash_textarea()
    ensures
        spec_hash(TagNameHash::Textarea.spec_name()) == Some(TagNameHash::Textarea.spec_value()),
{
    reveal_with_fuel(spec_hash, 9);
    broadcast use vstd::seq_lib::group_seq_properties;

}

proof fn lemma_known_hash_xmp()
    ensures
        spec_hash(TagNameHash::Xmp.spec_name()) == Some(TagNameHash::Xmp.spec_value()),
{
    reveal_with_fuel(spec_hash, 4);
    broadcast use vstd::seq_lib::group_seq_properties;

}

proof fn lemma_known_hash_iframe()
    ensures
        spec_hash(TagNameHash::Iframe.spec_name()) == Some(TagNameHash::Iframe.spec_value()),
{
    reveal_with_fuel(spec_hash, 7);
    broadcast use vstd::seq_lib::group_seq_properties;

}

proof fn lemma_known_hash_noembed()
    ensures
        spec_hash(TagNameHash::Noembed.spec_name()) == Some(TagNameHash::Noembed.spec_value()),
{
    reveal_with_fuel(spec_hash, 8);
    broadcast use vstd::seq_lib::group_seq_properties;

}

proof fn lemma_known_hash_noframes()
    ensures
        spec_hash(TagNameHash::Noframes.spec_name()) == Some(TagNameHash::Noframes.spec_value()),
{
    reveal_with_fuel(spec_hash, 9);
    broadcast use vstd::seq_lib::group_seq_properties;

}

proof fn lemma_known_hash_plaintext()
    ensures
        spec_hash(TagNameHash::Plaintext.spec_name()) == Some(TagNameHash::Plaintext.spec_value()),
{
    reveal_with_fuel(spec_hash, 10);
    broadcast use vstd::seq_lib::group_seq_properties;

}

/// Each precomputed constant is the code of the name it stands for.
pub proof fn lemma_known_hashes_match(t: TagNameHash)
    ensures
        spec_hash(t.spec_name()) == Some(t.spec_value()),
{
    match t {
        TagNameHash::Svg => lemma_known_hash_svg(),
        TagNameHash::Math => lemma_known_hash_math(),
        TagNameHash::H1 => lemma_known_hash_h1(),
        TagNameHash::Script => lemma_known_hash_script(),
        TagNameHash::Style => lemma_known_hash_style(),
        TagNameHash::Title => lemma_known_hash_title(),
        TagNameHash::Textarea => lemma_known_hash_textarea(),
        TagNameHash::Xmp => lemma_known_hash_xmp(),
        TagNameHash::Iframe => lemma_known_hash_iframe(),
        TagNameHash::Noembed => lemma_known_hash_noembed(),
        TagNameHash::Noframes => lemma_known_hash_noframes(),
        TagNameHash::Plaintext => lemma_known_hash_plaintext(),
    }
}

/// 32 to the power `n`.
pub open spec fn pow32(n: nat) -> int
    decreases n,
{
    if n == 0 {
        1
    } else {
        32 * pow32((n - 1) as nat)
    }
}

proof fn lemma_pow32_monotonic(a: nat, b: nat)
    requires
        a <= b,
    ensures
        1 <= pow32(a) <= pow32(b),
    decreases b,
{
    if b > 0 {
        if a < b {
            lemma_pow32_monotonic(a, (b - 1) as nat);
        } else {
            lemma_pow32_monotonic(0, (b - 1) as nat);
        }
    }
}

/// Every name of at most twelve characters from the alphabet has a code,
/// below 32 to the power of its length.
pub proof fn lemma_short_names_are_encodable(name: Seq<u8>)
    requires
        name.len() <= 12,
        forall|i: int| 0 <= i < name.len() ==> is_hash_char(#[trigger] name[i]),
    ensures
        spec_hash(name) is Some,
        (spec_hash(name)->0 as int) < pow32(name.len()),
    decreases name.len(),
{
    if name.len() > 0 {
        let p = name.drop_last();
        assert forall|i: int| 0 <= i < p.len() implies is_hash_char(#[trigger] p[i]) by {
            assert(p[i] == name[i]);
        }
        lemma_short_names_are_encodable(p);
        let h = spec_hash(p)->0 as int;
        lemma_pow32_monotonic(p.len(), 11);
        assert(pow32(11) == 0x80_0000_0000_0000) by {
            reveal_with_fuel(pow32, 12);
        }
        assert(is_hash_char(name.last()));
        let c = hash_symbol(name.last());
        let b = pow32(p.len());
        assert(h * 32 + c < b * 32) by (nonlinear_arith)
            requires
                0 <= h < b,
                0 <= c < 32,
        ;
        assert(b * 32 <= 0x80_0000_0000_0000 * 32) by (nonlinear_arith)
            requires
                b <= 0x80_0000_0000_0000,
        ;
    }
}

} // verus!
