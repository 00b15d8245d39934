//! The text the inspection verbs print: `list` (images and toolchains), `show` (one image's
//! matrix, outputs and features) and the one-line summaries of `validate` and a dry run.
use vstd::prelude::*;
use vstd::utf8::encode_utf8;
use crate::matrix::{expand, expansion, Axes, Matrix};
use crate::ordered::{axes_to_vec, axis_view};
use crate::schema::{effective_tag_text, OutputSpec, ToolConfig, ToolchainEntry};
use crate::text::{decimal, join_strings, join_with, push_char, push_str, u64_text, views};
use crate::types::format_text;

verus! {

/// `n` spaces.
pub open spec fn spaces(n: nat) -> Seq<char> {
    Seq::new(n, |i: int| ' ')
}

/// `s` padded with spaces on the right to `width` characters (`{:<width}`); longer text is kept.
pub open spec fn pad_right(s: Seq<char>, width: nat) -> Seq<char> {
    if s.len() < width {
        s + spaces((width - s.len()) as nat)
    } else {
        s
    }
}

/// Appends `s` padded to `width` characters.
fn push_padded(out: &mut String, s: &str, width: usize)
    ensures
        final(out)@ == old(out)@ + pad_right(s@, width as nat),
{
    let ghost start = out@;
    push_str(out, s);
    let n = crate::text::chars_of(s).len();
    if n < width {
        let mut k: usize = n;
        while k < width
            invariant
                n == s@.len(),
                n <= k <= width,
                out@ == start + s@ + spaces((k - n) as nat),
            decreases width - k,
        {
            push_char(out, ' ');
            assert(spaces((k + 1 - n) as nat) =~= spaces((k - n) as nat).push(' '));
            k = k + 1;
        }
    } else {
        assert(out@ =~= start + pad_right(s@, width as nat));
    }
}

/// How many cells an image's matrix expands to: one without a matrix, none when it is invalid.
pub open spec fn cell_count_of(axes: Option<(Axes, Seq<crate::matrix::Point>, Seq<crate::matrix::Point>)>) -> nat {
    match axes {
        None => 1,
        Some((a, inc, exc)) => match expansion(a, inc, exc) {
            Ok(cells) => cells.len(),
            Err(_) => 0,
        },
    }
}

/// The matrix of an image as plain values.
pub open spec fn matrix_parts(m: Option<&Matrix>) -> Option<(Axes, Seq<crate::matrix::Point>, Seq<crate::matrix::Point>)> {
    match m {
        Some(m) => Some((m.axes_view(), m.include_view(), m.exclude_view())),
        None => None,
    }
}

/// The number of cells an image's matrix expands to.
pub fn image_cell_count(matrix: Option<&Matrix>) -> (n: usize)
    ensures
        n as nat == cell_count_of(matrix_parts(matrix)),
{
    match matrix {
        None => 1,
        Some(m) => match expand(m) {
            Ok(cells) => cells.len(),
            Err(_) => 0,
        },
    }
}

/// One `list` line per image: the name padded to 28 characters, then its cell count, then
/// ` (skip)` for an image that bulk selection leaves out.
pub open spec fn image_lines(images: Seq<(Seq<char>, nat, bool)>) -> Seq<char>
    decreases images.len(),
{
    if images.len() == 0 {
        Seq::empty()
    } else {
        image_lines(images.drop_last()) + "  "@ + pad_right(images.last().0, 28) + " "@
            + decimal(images.last().1) + " cell(s)"@ + (if images.last().2 { " (skip)"@ } else { Seq::empty() }) + "\n"@
    }
}

/// One `list` line per toolchain: the id padded to 10 characters, then `container:tag`.
pub open spec fn toolchain_lines(entries: Seq<(String, ToolchainEntry)>) -> Seq<char>
    decreases entries.len(),
{
    if entries.len() == 0 {
        Seq::empty()
    } else {
        toolchain_lines(entries.drop_last()) + "  "@ + pad_right(entries.last().0@, 10) + " "@
            + entries.last().1.container@ + ":"@ + effective_tag_text(entries.last().1) + "\n"@
    }
}

/// What `list` prints: the images with their cell counts, then (in a workspace) the toolchains.
pub open spec fn list_text_of(images: Seq<(Seq<char>, nat, bool)>, tool: Option<&ToolConfig>) -> Seq<char> {
    "Images:\n"@ + image_lines(images) + match tool {
        Some(t) => "\nToolchains (default: "@ + t.toolchains.default@ + "):\n"@ + toolchain_lines(t.toolchains.entries@),
        None => Seq::empty(),
    }
}

/// The images of `list` as plain values.
pub open spec fn image_counts(images: Seq<(String, usize, bool)>) -> Seq<(Seq<char>, nat, bool)> {
    images.map_values(|e: (String, usize, bool)| (e.0@, e.1 as nat, e.2))
}

/// The text `list` prints for images (name, cell count, marked `skip`) and the workspace tool
/// config.
pub fn list_text(images: &Vec<(String, usize, bool)>, tool: Option<&ToolConfig>) -> (r: String)
    ensures
        r@ == list_text_of(image_counts(images@), tool),
{
    proof {
        reveal_strlit("Images:\n");
    }
    let mut out = "Images:\n".to_owned();
    let ghost head = out@;
    let mut i: usize = 0;
    while i < images.len()
        invariant
            i <= images@.len(),
            head == "Images:\n"@,
            out@ == head + image_lines(image_counts(images@.take(i as int))),
        decreases images@.len() - i,
    {
        let ghost before = out@;
        push_str(&mut out, "  ");
        push_padded(&mut out, images[i].0.as_str(), 28);
        push_str(&mut out, " ");
        let count = u64_text(images[i].1 as u64);
        push_str(&mut out, count.as_str());
        push_str(&mut out, " cell(s)");
        if images[i].2 {
            push_str(&mut out, " (skip)");
        }
        push_str(&mut out, "\n");
        proof {
            let t = image_counts(images@.take(i + 1));
            assert(t.drop_last() =~= image_counts(images@.take(i as int)));
            assert(t.last() == (images@[i as int].0@, images@[i as int].1 as nat, images@[i as int].2));
        }
        i = i + 1;
        assert(out@ =~= head + image_lines(image_counts(images@.take(i as int))));
    }
    assert(images@.take(i as int) =~= images@);
    let ghost body = out@;
    match tool {
        Some(t) => {
            push_str(&mut out, "\nToolchains (default: ");
            push_str(&mut out, t.toolchains.default.as_str());
            push_str(&mut out, "):\n");
            let ghost mid = out@;
            let entries = &t.toolchains.entries;
            let mut k: usize = 0;
            while k < entries.len()
                invariant
                    k <= entries@.len(),
                    out@ == mid + toolchain_lines(entries@.take(k as int)),
                decreases entries@.len() - k,
            {
                push_str(&mut out, "  ");
                push_padded(&mut out, entries[k].0.as_str(), 10);
                push_str(&mut out, " ");
                push_str(&mut out, entries[k].1.container.as_str());
                push_str(&mut out, ":");
                let tag = entries[k].1.effective_tag();
                push_str(&mut out, tag.as_str());
                push_str(&mut out, "\n");
                assert(entries@.take(k + 1).drop_last() =~= entries@.take(k as int));
                k = k + 1;
                assert(out@ =~= mid + toolchain_lines(entries@.take(k as int)));
            }
            assert(entries@.take(k as int) =~= entries@);
            assert(out@ =~= list_text_of(image_counts(images@), tool));
        },
        None => {
            assert(out@ =~= list_text_of(image_counts(images@), tool));
        },
    }
    out
}

/// The length of a text in bytes, as `str::len` gives it.
pub open spec fn byte_len(s: Seq<char>) -> nat {
    (encode_utf8(s).len() as usize) as nat
}

/// The widest axis name, in bytes.
pub open spec fn name_width(axes: Axes) -> nat
    decreases axes.len(),
{
    if axes.len() == 0 {
        0
    } else {
        let w = name_width(axes.drop_last());
        let n = byte_len(axes.last().0);
        if n > w { n } else { w }
    }
}

/// One `show` line per axis: the name padded to `width`, then its values.
pub open spec fn axis_lines(axes: Axes, width: nat) -> Seq<char>
    decreases axes.len(),
{
    if axes.len() == 0 {
        Seq::empty()
    } else {
        axis_lines(axes.drop_last(), width) + "  "@ + pad_right(axes.last().0, width) + " : "@
            + join_with(axes.last().1, ", "@) + "\n"@
    }
}

/// The `show` lines for an image's matrix.
pub open spec fn matrix_lines(m: Option<&Matrix>) -> Seq<char> {
    match m {
        Some(m) => "matrix:  "@ + decimal(cell_count_of(matrix_parts(Some(m)))) + " cell(s) across "@
            + decimal(m.axes_view().len()) + " axis(es)\n"@ + axis_lines(m.axes_view(), name_width(m.axes_view()))
            + if m.exclude@.len() > 0 { "  ("@ + decimal(m.exclude@.len()) + " exclude rule(s))\n"@ } else { Seq::empty() },
        None => "matrix:  none (single cell)\n"@,
    }
}

/// The names of the formats of some outputs.
pub open spec fn format_names(outputs: Seq<OutputSpec>) -> Seq<Seq<char>> {
    outputs.map_values(|o: OutputSpec| format_text(o.format))
}

/// What `show` prints for one image.
pub open spec fn show_text_of(name: Seq<char>, dir: Seq<char>, m: Option<&Matrix>, outputs: Seq<OutputSpec>, features: Seq<Seq<char>>) -> Seq<char> {
    "name:    "@ + name + "\n"@ + "dir:     "@ + dir + "\n"@ + matrix_lines(m)
        + if outputs.len() > 0 { "outputs: "@ + join_with(format_names(outputs), ", "@) + "\n"@ } else { Seq::empty() }
        + if features.len() > 0 { "features: "@ + join_with(features, ", "@) + "\n"@ } else { Seq::empty() }
}

/// Appends the `show` lines of an image's matrix.
fn push_matrix_lines(out: &mut String, matrix: Option<&Matrix>)
    ensures
        final(out)@ == old(out)@ + matrix_lines(matrix),
{
    let ghost head = out@;
    match matrix {
        Some(m) => {
            push_str(out, "matrix:  ");
            let cells = image_cell_count(Some(m));
            let cells_text = u64_text(cells as u64);
            push_str(out, cells_text.as_str());
            push_str(out, " cell(s) across ");
            let axes = axes_to_vec(&m.axes);
            let ghost av = axes@.map_values(|e: (String, Vec<String>)| axis_view(e));
            assert(av == m.axes_view());
            let n_text = u64_text(axes.len() as u64);
            push_str(out, n_text.as_str());
            push_str(out, " axis(es)\n");
            let width = axis_name_width(&axes);
            let ghost mid = out@;
            push_axis_lines(out, &axes, width);
            if m.exclude.len() > 0 {
                push_str(out, "  (");
                let e = u64_text(m.exclude.len() as u64);
                push_str(out, e.as_str());
                push_str(out, " exclude rule(s))\n");
            }
            assert(out@ =~= head + matrix_lines(matrix));
        },
        None => {
            push_str(out, "matrix:  none (single cell)\n");
            assert(out@ =~= head + matrix_lines(matrix));
        },
    }
}

/// The widest axis name of a matrix, in bytes.
fn axis_name_width(axes: &Vec<(String, Vec<String>)>) -> (width: usize)
    ensures
        width as nat == name_width(axes@.map_values(|e: (String, Vec<String>)| axis_view(e))),
{
    let ghost av = axes@.map_values(|e: (String, Vec<String>)| axis_view(e));
    let mut width: usize = 0;
    let mut i: usize = 0;
    while i < axes.len()
        invariant
            i <= axes@.len(),
            av == axes@.map_values(|e: (String, Vec<String>)| axis_view(e)),
            width as nat == name_width(av.take(i as int)),
        decreases axes@.len() - i,
    {
        let n = axes[i].0.as_str().len();
        assert(av.take(i + 1).drop_last() =~= av.take(i as int));
        assert(av.take(i + 1).last().0 == axes@[i as int].0@);
        if n > width {
            width = n;
        }
        i = i + 1;
    }
    assert(av.take(i as int) =~= av);
    width
}

/// Appends one line per axis: the name padded to `width`, then its values.
fn push_axis_lines(out: &mut String, axes: &Vec<(String, Vec<String>)>, width: usize)
    ensures
        final(out)@ == old(out)@ + axis_lines(axes@.map_values(|e: (String, Vec<String>)| axis_view(e)), width as nat),
{
    let ghost av = axes@.map_values(|e: (String, Vec<String>)| axis_view(e));
    let ghost mid = out@;
    let mut k: usize = 0;
    while k < axes.len()
        invariant
            k <= axes@.len(),
            av == axes@.map_values(|e: (String, Vec<String>)| axis_view(e)),
            out@ == mid + axis_lines(av.take(k as int), width as nat),
        decreases axes@.len() - k,
    {
        push_str(out, "  ");
        push_padded(out, axes[k].0.as_str(), width);
        push_str(out, " : ");
        let values = join_strings(&axes[k].1, ", ");
        push_str(out, values.as_str());
        push_str(out, "\n");
        assert(av.take(k + 1).drop_last() =~= av.take(k as int));
        assert(av.take(k + 1).last() == axis_view(axes@[k as int]));
        k = k + 1;
        assert(out@ =~= mid + axis_lines(av.take(k as int), width as nat));
    }
    assert(av.take(k as int) =~= av);
}

/// The format names of some outputs.
fn output_format_names(outputs: &Vec<OutputSpec>) -> (names: Vec<String>)
    ensures
        views(names@) == format_names(outputs@),
{
    let mut names: Vec<String> = Vec::new();
    let mut i: usize = 0;
    while i < outputs.len()
        invariant
            i <= outputs@.len(),
            views(names@) == format_names(outputs@.take(i as int)),
        decreases outputs@.len() - i,
    {
        let ghost before = views(names@);
        names.push(outputs[i].format.as_str().to_owned());
        assert(views(names@) =~= before.push(format_text(outputs@[i as int].format)));
        assert(format_names(outputs@.take(i + 1)) =~= format_names(outputs@.take(i as int)).push(format_text(outputs@[i as int].format)));
        i = i + 1;
    }
    assert(outputs@.take(i as int) =~= outputs@);
    names
}

/// The text `show` prints for an image: its name and directory, its matrix (cell count, each
/// axis with its values, the number of exclusion rules), its output formats and its features.
pub fn show_text(name: &str, dir: &str, matrix: Option<&Matrix>, outputs: &Vec<OutputSpec>, features: &Vec<String>) -> (r: String)
    ensures
        r@ == show_text_of(name@, dir@, matrix, outputs@, views(features@)),
{
    let mut out = "name:    ".to_owned();
    push_str(&mut out, name);
    push_str(&mut out, "\n");
    push_str(&mut out, "dir:     ");
    push_str(&mut out, dir);
    push_str(&mut out, "\n");
    push_matrix_lines(&mut out, matrix);
    let ghost after_matrix = out@;
    if outputs.len() > 0 {
        let names = output_format_names(outputs);
        push_str(&mut out, "outputs: ");
        let joined = join_strings(&names, ", ");
        push_str(&mut out, joined.as_str());
        push_str(&mut out, "\n");
    }
    if features.len() > 0 {
        push_str(&mut out, "features: ");
        let joined = join_strings(features, ", ");
        push_str(&mut out, joined.as_str());
        push_str(&mut out, "\n");
    }
    assert(out@ =~= show_text_of(name@, dir@, matrix, outputs@, views(features@)));
    out
}

/// The `validate` line for an image whose cells all render.
pub open spec fn valid_line(name: Seq<char>, cells: nat) -> Seq<char> {
    "✓ "@ + pad_right(name, 28) + " "@ + decimal(cells) + " cell(s) valid"@
}

/// The `validate` line for an image.
pub fn validate_line(name: &str, cells: usize) -> (r: String)
    ensures
        r@ == valid_line(name@, cells as nat),
{
    let mut out = "✓ ".to_owned();
    push_padded(&mut out, name, 28);
    push_str(&mut out, " ");
    let n = u64_text(cells as u64);
    push_str(&mut out, n.as_str());
    push_str(&mut out, " cell(s) valid");
    out
}

} // verus!
