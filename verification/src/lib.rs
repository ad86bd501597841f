//! Strip a leading YAML-style frontmatter block from Markdown text.
//!
//! A frontmatter block is delimited by fence lines: lines that read `---`
//! once surrounding whitespace is trimmed.  The block is recognized only
//! when the opening fence is the very first line of the document and a
//! closing fence follows somewhere below it.  Splitting returns the body
//! with the block removed, together with the block itself when one was
//! found.

use vstd::prelude::*;

pub mod splitter;
pub mod text;

pub use splitter::strip_frontmatter;

verus! {

/// Decide whether this preprocessor supports a renderer.
///
/// Only the `html` renderer is supported.
pub fn supports_renderer(renderer: &str) -> (b: bool)
    ensures
        b == (renderer@ == "html"@),
{
    proof {
        reveal_strlit("html");
    }
    let n: usize = renderer.unicode_len();
    if n != 4 {
        return false;
    }
    let b: bool = renderer.get_char(0) == 'h' && renderer.get_char(1) == 't'
        && renderer.get_char(2) == 'm' && renderer.get_char(3) == 'l';
    proof {
        if b {
            assert(renderer@ =~= "html"@);
        }
    }
    b
}

} // verus!
