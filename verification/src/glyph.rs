//! Source of random glyphs and coin flips: every random value the simulation
//! consumes is drawn here, behind two trusted wrappers around the `rand`
//! crate, and handed to the verified logic as a plain value.

use vstd::prelude::*;

verus! {

/// The fixed alphabet glyphs are drawn from: ASCII letters and digits, a few
/// symbols, and a block of half-width katakana.
pub open spec fn alphabet() -> Seq<char> {
    "qwertyuiopasdfghjklzxcvbnmQWERTYUIOPASDFGHJKLZXCVBNMｦｧｨｩｪｫｬｭｮｯｰｱｲｳｴｵｶｷｸｹｺｻｼｽｾｿﾀﾁﾂﾃﾄﾅﾆﾇﾈﾉﾊﾋﾌﾍﾎﾏﾐﾑﾒﾓﾔﾕﾖﾗﾘﾙﾚﾛﾜﾝ1234567890-=*_+|:<>"@
}

/// The alphabet as a string slice, for drawing characters at run time.
fn alphabet_str() -> (s: &'static str)
    ensures
        s@ == alphabet(),
        s@.len() > 0,
{
    let s = "qwertyuiopasdfghjklzxcvbnmQWERTYUIOPASDFGHJKLZXCVBNMｦｧｨｩｪｫｬｭｮｯｰｱｲｳｴｵｶｷｸｹｺｻｼｽｾｿﾀﾁﾂﾃﾄﾅﾆﾇﾈﾉﾊﾋﾌﾍﾎﾏﾐﾑﾒﾓﾔﾕﾖﾗﾘﾙﾚﾛﾜﾝ1234567890-=*_+|:<>";
    proof {
        reveal_strlit(
            "qwertyuiopasdfghjklzxcvbnmQWERTYUIOPASDFGHJKLZXCVBNMｦｧｨｩｪｫｬｭｮｯｰｱｲｳｴｵｶｷｸｹｺｻｼｽｾｿﾀﾁﾂﾃﾄﾅﾆﾇﾈﾉﾊﾋﾌﾍﾎﾏﾐﾑﾒﾓﾔﾕﾖﾗﾘﾙﾚﾛﾜﾝ1234567890-=*_+|:<>",
        );
    }
    s
}

/// Relies on rand::random_range on the thread-local generator: a value drawn
/// uniformly from the half-open range, which panics only when the range is
/// empty.
#[verifier::external_body]
pub(crate) fn rand_below(n: usize) -> (r: usize)
    requires
        n >= 1,
    ensures
        r < n,
{
    rand::random_range(0..n)
}

/// Relies on rand::random on the thread-local generator: a fair coin flip
/// drawn from the standard distribution on bool.
#[verifier::external_body]
pub(crate) fn rand_flip() -> bool {
    rand::random::<bool>()
}

/// One glyph choice for a writer node: the character to paint and whether it
/// is bold.
#[derive(Clone, Copy, Debug, PartialEq, Eq)]
pub struct GlyphPick {
    pub ch: char,
    pub bold: bool,
}

/// Draws one character uniformly at random from the fixed alphabet.
pub fn next_glyph() -> (c: char)
    ensures
        alphabet().contains(c),
{
    let s = alphabet_str();
    let n = s.unicode_len();
    let i = rand_below(n);
    let c = s.get_char(i);
    proof {
        assert(alphabet().contains(c)) by {
            assert(alphabet()[i as int] == c);
        }
    }
    c
}

/// A fair coin flip, used for boldness and for the bright flag of a run.
pub fn next_bool() -> bool {
    rand_flip()
}

/// Draws a fresh glyph choice: a random character from the alphabet and a
/// random boldness flag.
pub fn next_pick() -> (p: GlyphPick)
    ensures
        alphabet().contains(p.ch),
{
    GlyphPick { ch: next_glyph(), bold: next_bool() }
}

} // verus!
