//! The one typographic move that is made by hand: letterspaced captions.
use vstd::prelude::*;
use crate::text;

verus! {

/// What `str::to_uppercase` makes of a text: each character by its Unicode uppercase mapping,
/// which may be several characters.
pub uninterp spec fn uppercased(s: Seq<char>) -> Seq<char>;

/// `str::to_uppercase` gives the uppercase equivalent of a text. It depends on the text alone, not
/// on a locale.
#[verifier::external_body]
fn to_upper(s: &str) -> (r: String)
    ensures
        r@ == uppercased(s@),
{
    s.to_uppercase()
}

/// Whether a character is white space.
pub open spec fn is_space(c: char) -> bool {
    let n = c as int;
    ||| 9 <= n <= 13
    ||| n == 32
    ||| n == 0x85
    ||| n == 0xA0
    ||| n == 0x1680
    ||| 0x2000 <= n <= 0x200A
    ||| n == 0x2028
    ||| n == 0x2029
    ||| n == 0x202F
    ||| n == 0x205F
    ||| n == 0x3000
}

/// A text with a space behind each character.
pub open spec fn spaced(s: Seq<char>) -> Seq<char> {
    Seq::new(
        2 * s.len(),
        |i: int| if i % 2 == 0 {
            s[i / 2]
        } else {
            ' '
        },
    )
}

/// A text without the white space at its end.
pub open spec fn trimmed(s: Seq<char>) -> Seq<char>
    decreases s.len(),
{
    if s.len() > 0 && is_space(s.last()) {
        trimmed(s.drop_last())
    } else {
        s
    }
}

fn is_white(c: char) -> (r: bool)
    ensures
        r == is_space(c),
{
    let n: u32 = c as u32;
    (9 <= n && n <= 13) || n == 32 || n == 0x85 || n == 0xA0 || n == 0x1680 || (0x2000 <= n && n
        <= 0x200A) || n == 0x2028 || n == 0x2029 || n == 0x202F || n == 0x205F || n == 0x3000
}

/// Puts a space between the characters of a text, and drops the white space at its end.
pub fn letterspace(text: &str) -> (r: String)
    ensures
        r@ == trimmed(spaced(text@)),
{
    let chars = text::chars_of(text);
    let mut wide: Vec<char> = Vec::new();
    let mut i: usize = 0;
    while i < chars.len()
        invariant
            chars@ == text@,
            i <= chars.len(),
            wide@ == spaced(text@.take(i as int)),
        decreases chars.len() - i,
    {
        wide.push(chars[i]);
        wide.push(' ');
        i += 1;
    }
    assert(text@.take(i as int) == text@);
    let ghost whole = wide@;
    while wide.len() > 0 && is_white(wide[wide.len() - 1])
        invariant
            trimmed(wide@) == trimmed(whole),
        decreases wide.len(),
    {
        let _ = wide.pop();
    }
    text::string_of(&wide)
}

/// A caption: the text in upper case, letterspaced.
pub fn caption(text: &str) -> (r: String)
    ensures
        r@ == trimmed(spaced(uppercased(text@))),
{
    let upper = to_upper(text);
    letterspace(upper.as_str())
}

proof fn lemma_trimmed(s: Seq<char>)
    ensures
        trimmed(s).len() <= s.len(),
        trimmed(s) == s.take(trimmed(s).len() as int),
        trimmed(s).len() > 0 ==> !is_space(trimmed(s).last()),
        forall|i: int| trimmed(s).len() <= i < s.len() ==> is_space(#[trigger] s[i]),
    decreases s.len(),
{
    if s.len() > 0 && is_space(s.last()) {
        lemma_trimmed(s.drop_last());
        assert forall|i: int| trimmed(s).len() <= i < s.len() implies is_space(
            #[trigger] s[i],
        ) by {
            if i < s.len() - 1 {
                assert(s.drop_last()[i] == s[i]);
            }
        }
    }
}

/// A caption never ends in white space, and every second character of it is one of the text's, in
/// order.
pub proof fn law_captions_keep_the_text(s: Seq<char>)
    ensures
        ({
            let c = trimmed(spaced(s));
            &&& c.len() > 0 ==> !is_space(c.last())
            &&& c.len() <= 2 * s.len()
            &&& forall|i: int| 0 <= 2 * i < c.len() ==> #[trigger] c[2 * i] == s[i]
            &&& forall|i: int| c.len() <= 2 * i < 2 * s.len() ==> is_space(#[trigger] s[i])
        }),
{
    lemma_trimmed(spaced(s));
    let c = trimmed(spaced(s));
    assert forall|i: int| c.len() <= 2 * i < 2 * s.len() implies is_space(#[trigger] s[i]) by {
        assert(spaced(s)[2 * i] == s[i]);
    }
}

/// The characters of a caption have one space between them each, as far as it goes, and nothing but
/// white space is cut from its end.
pub proof fn law_captions_are_letterspaced(s: Seq<char>, i: int)
    requires
        0 <= i,
    ensures
        ({
            let c = trimmed(spaced(s));
            &&& 2 * i + 1 < c.len() ==> c[2 * i + 1] as int == 32
            &&& 2 * i < c.len() ==> i < s.len() && c[2 * i] == s[i]
            &&& s.len() > 0 && !is_space(s.last()) ==> c.len() == 2 * s.len() - 1
        }),
{
    lemma_trimmed(spaced(s));
    let c = trimmed(spaced(s));
    if s.len() > 0 && !is_space(s.last()) {
        let w = spaced(s);
        assert(w[2 * s.len() - 2] == s.last());
        if c.len() < 2 * s.len() - 1 {
            assert(is_space(w[2 * s.len() - 2]));
        }
        if c.len() == 2 * s.len() {
            assert(c.last() == w[2 * s.len() - 1]);
            assert(w[2 * s.len() - 1] == ' ');
        }
    }
}

} // verus!
