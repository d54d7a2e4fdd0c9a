//! What the flame-layout renderer is handed: the collapsed text, one line per
//! path, and the choice of palette; and a plain-text summary of the heaviest
//! paths.
use vstd::prelude::*;
use vstd::string::*;

use crate::aggregator::{stack_views, CollapsedStack};
use crate::text::{decimal, decimal_string, lower_of, lowercase, same_text};

verus! {

/// Colour palettes for the rendered graph.
#[derive(Debug, Clone, Copy, PartialEq, Eq, Structural)]
pub enum FlamegraphPalette {
    Hot,
    Mem,
    Io,
    Java,
    Consistent,
}

/// Why no graph was rendered.
#[derive(Debug)]
pub enum FlamegraphError {
    /// There is no path to render.
    EmptyStacks,
    /// The renderer failed.
    GenerationFailed(String),
}

/// The text line of a path view: the path, a space, the weight.
pub open spec fn line_of(e: (Seq<char>, u64)) -> Seq<char> {
    e.0 + seq![' '] + decimal(e.1 as nat)
}

/// The lines of the paths joined by newlines.
pub open spec fn collapsed_text(s: Seq<(Seq<char>, u64)>) -> Seq<char>
    decreases s.len(),
{
    if s.len() == 0 {
        Seq::empty()
    } else if s.len() == 1 {
        line_of(s[0])
    } else {
        collapsed_text(s.drop_last()) + seq!['\n'] + line_of(s.last())
    }
}

/// The collapsed text of `stacks`: one line per path, in the given order,
/// separated by newlines.
pub fn stacks_to_collapsed_format(stacks: &[CollapsedStack]) -> (r: String)
    ensures
        r@ == collapsed_text(stack_views(stacks@)),
{
    let ghost views = stack_views(stacks@);
    let mut out = String::new();
    let mut i: usize = 0;
    while i < stacks.len()
        invariant
            0 <= i <= stacks@.len(),
            views == stack_views(stacks@),
            out@ == collapsed_text(views.take(i as int)),
        decreases stacks@.len() - i,
    {
        proof {
            reveal_strlit("\n");
        }
        let ghost pre = views.take(i as int);
        assert(views.take(i + 1).drop_last() =~= pre);
        assert(views.take(i + 1).last() == stacks@[i as int]@);
        if i > 0 {
            out.append("\n");
        }
        let line = stacks[i].to_line();
        out.append(line.as_str());
        if i == 0 {
            assert(out@ =~= collapsed_text(views.take(1)));
        } else {
            assert(out@ =~= collapsed_text(views.take(i + 1)));
        }
        i = i + 1;
    }
    assert(views.take(stacks@.len() as int) =~= views);
    out
}

/// The text handed to the renderer; there must be at least one path.
pub fn flamegraph_input(stacks: &[CollapsedStack]) -> (r: Result<String, FlamegraphError>)
    ensures
        match r {
            Ok(text) => stacks@.len() > 0 && text@ == collapsed_text(stack_views(stacks@)),
            Err(e) => stacks@.len() == 0 && e is EmptyStacks,
        },
{
    if stacks.len() == 0 {
        return Err(FlamegraphError::EmptyStacks);
    }
    Ok(stacks_to_collapsed_format(stacks))
}

/// The palette a lower-case name selects, if any.
pub open spec fn palette_named(name: Seq<char>) -> Option<FlamegraphPalette> {
    if name == "hot"@ {
        Some(FlamegraphPalette::Hot)
    } else if name == "mem"@ {
        Some(FlamegraphPalette::Mem)
    } else if name == "io"@ {
        Some(FlamegraphPalette::Io)
    } else if name == "java"@ {
        Some(FlamegraphPalette::Java)
    } else if name == "consistent"@ {
        Some(FlamegraphPalette::Consistent)
    } else {
        None
    }
}

/// The palette that a name already in lower case selects, if any.
pub fn palette_for_lowercase(name: &str) -> (r: Option<FlamegraphPalette>)
    ensures
        r == palette_named(name@),
{
    if same_text(name, "hot") {
        Some(FlamegraphPalette::Hot)
    } else if same_text(name, "mem") {
        Some(FlamegraphPalette::Mem)
    } else if same_text(name, "io") {
        Some(FlamegraphPalette::Io)
    } else if same_text(name, "java") {
        Some(FlamegraphPalette::Java)
    } else if same_text(name, "consistent") {
        Some(FlamegraphPalette::Consistent)
    } else {
        None
    }
}

/// The palette a name selects, in any letter case, if any.
pub fn palette_from_name(name: &str) -> (r: Option<FlamegraphPalette>)
    ensures
        r == palette_named(lower_of(name@)),
{
    let lowered = lowercase(name);
    palette_for_lowercase(lowered.as_str())
}

/// The palette a name selects, in any letter case; `Hot` for an unknown name.
pub fn parse_palette(palette_str: &str) -> (r: FlamegraphPalette)
    ensures
        r == match palette_named(lower_of(palette_str@)) {
            Some(p) => p,
            None => FlamegraphPalette::Hot,
        },
{
    match palette_from_name(palette_str) {
        Some(p) => p,
        None => FlamegraphPalette::Hot,
    }
}

/// The renderer's name for the colour scheme of a palette.
pub open spec fn scheme_of(p: FlamegraphPalette) -> Seq<char> {
    match p {
        FlamegraphPalette::Hot => "hot"@,
        FlamegraphPalette::Mem => "mem"@,
        FlamegraphPalette::Io => "io"@,
        FlamegraphPalette::Java => "java"@,
        FlamegraphPalette::Consistent => "aqua"@,
    }
}

/// The renderer's name for the colour scheme of a palette.
pub fn palette_scheme(p: FlamegraphPalette) -> (r: &'static str)
    ensures
        r@ == scheme_of(p),
{
    match p {
        FlamegraphPalette::Hot => "hot",
        FlamegraphPalette::Mem => "mem",
        FlamegraphPalette::Io => "io",
        FlamegraphPalette::Java => "java",
        FlamegraphPalette::Consistent => "aqua",
    }
}

// ---------------------------------------------------------------------------
// Text summary
// ---------------------------------------------------------------------------

/// `t` repeated `n` times.
pub open spec fn repeat_text(t: Seq<char>, n: nat) -> Seq<char>
    decreases n,
{
    if n == 0 {
        Seq::empty()
    } else {
        repeat_text(t, (n - 1) as nat) + t
    }
}

/// `s` right-aligned in a field of `width` characters.
pub open spec fn pad_left(s: Seq<char>, width: nat) -> Seq<char> {
    if s.len() < width {
        repeat_text(seq![' '], (width - s.len()) as nat) + s
    } else {
        s
    }
}

/// The summary line of the path at rank `rank` (from 1).
pub open spec fn summary_line(rank: nat, e: (Seq<char>, u64)) -> Seq<char> {
    pad_left(decimal(rank), 3) + ". "@ + pad_left(decimal(e.1 as nat), 10) + " gas | "@ + e.0
}

/// The summary lines of `s`, each after a newline.
pub open spec fn summary_lines(s: Seq<(Seq<char>, u64)>) -> Seq<char>
    decreases s.len(),
{
    if s.len() == 0 {
        Seq::empty()
    } else {
        summary_lines(s.drop_last()) + seq!['\n'] + summary_line(s.len(), s.last())
    }
}

/// The whole summary: a title, a rule, the first `max_lines` paths, and how
/// many more there are, if any.
pub open spec fn summary_text(s: Seq<(Seq<char>, u64)>, max_lines: nat) -> Seq<char> {
    let shown = if s.len() < max_lines {
        s
    } else {
        s.take(max_lines as int)
    };
    let tail = if s.len() > max_lines {
        "\n... and "@ + decimal((s.len() - max_lines) as nat) + " more stacks"@
    } else {
        Seq::empty()
    };
    "Top Gas Consumers:"@ + seq!['\n'] + repeat_text("─"@, 80) + summary_lines(shown) + tail
}

fn append_repeated(out: &mut String, t: &str, n: usize)
    ensures
        final(out)@ == old(out)@ + repeat_text(t@, n as nat),
{
    let mut k: usize = 0;
    while k < n
        invariant
            0 <= k <= n,
            out@ == old(out)@ + repeat_text(t@, k as nat),
        decreases n - k,
    {
        out.append(t);
        k = k + 1;
        assert(out@ =~= old(out)@ + repeat_text(t@, k as nat));
    }
}

fn append_padded(out: &mut String, s: &str, width: usize)
    ensures
        final(out)@ == old(out)@ + pad_left(s@, width as nat),
{
    proof {
        reveal_strlit(" ");
    }
    let n = s.unicode_len();
    if n < width {
        append_repeated(out, " ", width - n);
        assert(" "@ =~= seq![' ']);
    }
    out.append(s);
    assert(out@ =~= old(out)@ + pad_left(s@, width as nat));
}

/// A plain-text summary of the first `max_lines` paths, in the given order.
pub fn generate_text_summary(stacks: &[CollapsedStack], max_lines: usize) -> (r: String)
    ensures
        r@ == summary_text(stack_views(stacks@), max_lines as nat),
{
    let ghost views = stack_views(stacks@);
    proof {
        reveal_strlit("\n");
    }
    let mut out = String::from_str("Top Gas Consumers:");
    out.append("\n");
    append_repeated(&mut out, "─", 80);
    let ghost head = out@;
    let shown = if stacks.len() < max_lines {
        stacks.len()
    } else {
        max_lines
    };
    let mut i: usize = 0;
    while i < shown
        invariant
            0 <= i <= shown,
            shown <= stacks@.len(),
            shown <= max_lines,
            views == stack_views(stacks@),
            out@ == head + summary_lines(views.take(i as int)),
        decreases shown - i,
    {
        proof {
            reveal_strlit("\n");
        }
        let ghost pre = views.take(i as int);
        assert(views.take(i + 1).drop_last() =~= pre);
        assert(views.take(i + 1).last() == stacks@[i as int]@);
        out.append("\n");
        let rank = decimal_string((i + 1) as u64);
        append_padded(&mut out, rank.as_str(), 3);
        out.append(". ");
        let w = decimal_string(stacks[i].weight);
        append_padded(&mut out, w.as_str(), 10);
        out.append(" gas | ");
        out.append(stacks[i].stack.as_str());
        assert(out@ =~= head + summary_lines(views.take(i + 1)));
        i = i + 1;
    }
    if stacks.len() < max_lines {
        assert(views.take(shown as int) =~= views);
    }
    if stacks.len() > max_lines {
        out.append("\n... and ");
        let more = decimal_string((stacks.len() - max_lines) as u64);
        out.append(more.as_str());
        out.append(" more stacks");
    }
    out
}

} // verus!
