//! The decisions behind the command-line verbs: which images a command targets and with which
//! architectures and outputs, which architectures a rendered cell is built for, and how a new
//! image or axis name is checked and filled into a scaffold template.
use vstd::prelude::*;
use crate::matrix::lookup;
use crate::render::RenderedCell;
use crate::schema::{outputs_view, Defaults, OutputSpec};
use crate::text::{chars_of, contains_string, str_eq, index_of, join_strings, join_with, push_char, push_str, views};
use crate::types::{arch_named, parse_arch, Arch, OutputFormat};

verus! {

/// Token replaced with the image name in scaffold templates.
pub const NAME_TOKEN: &'static str = "__IMAGE_NAME__";

/// A path separator, either way round.
pub open spec fn is_path_sep(c: char) -> bool {
    c == '/' || c == '\\'
}

/// A name is unusable as a directory or axis name: empty, holding a path separator, or hidden.
pub open spec fn bad_name(name: Seq<char>) -> bool {
    ||| name.len() == 0
    ||| exists|i: int| 0 <= i < name.len() && is_path_sep(#[trigger] name[i])
    ||| name[0] == '.'
}

/// The message for a rejected name.
pub open spec fn bad_name_text(name: Seq<char>) -> Seq<char> {
    "invalid name `"@ + name + "`: use a bare name without path separators"@
}

/// Rejects names that are empty or that would escape their directory.
pub fn validate_name(name: &str) -> (r: Result<(), String>)
    ensures
        r is Err <==> bad_name(name@),
        r matches Err(msg) ==> msg@ == bad_name_text(name@),
{
    let chars = chars_of(name);
    let mut bad = chars.len() == 0 || chars[0] == '.';
    let mut i: usize = 0;
    while i < chars.len()
        invariant
            chars@ == name@,
            i <= chars@.len(),
            bad == (chars@.len() == 0 || chars@[0] == '.'
                || exists|j: int| 0 <= j < i && is_path_sep(#[trigger] chars@[j])),
        decreases chars@.len() - i,
    {
        let c = chars[i];
        if c == '/' || c == '\\' {
            assert(is_path_sep(chars@[i as int]));
            bad = true;
        }
        i = i + 1;
    }
    if bad {
        let mut msg = "invalid name `".to_owned();
        push_str(&mut msg, name);
        push_str(&mut msg, "`: use a bare name without path separators");
        Err(msg)
    } else {
        Ok(())
    }
}

/// `s` with every occurrence of `pat` replaced by `with`, matching left to right without overlap
/// (`str::replace`).
pub open spec fn replace_all(s: Seq<char>, pat: Seq<char>, with: Seq<char>) -> Seq<char>
    decreases s.len(),
{
    if s.len() == 0 || pat.len() == 0 {
        s
    } else if pat.len() <= s.len() && s.take(pat.len() as int) == pat {
        with + replace_all(s.skip(pat.len() as int), pat, with)
    } else {
        seq![s[0]] + replace_all(s.drop_first(), pat, with)
    }
}

/// Whether `pat` occurs in `s` at position `i`.
fn occurs_at(s: &Vec<char>, pat: &Vec<char>, i: usize) -> (r: bool)
    requires
        i <= s@.len(),
    ensures
        r == (pat@.len() <= s@.len() - i && s@.skip(i as int).take(pat@.len() as int) == pat@),
{
    if pat.len() > s.len() - i {
        return false;
    }
    let mut j: usize = 0;
    let slen = s.len();
    while j < pat.len()
        invariant
            slen == s@.len(),
            pat@.len() <= s@.len() - i,
            j <= pat@.len(),
            s@.skip(i as int).take(j as int) == pat@.take(j as int),
        decreases pat@.len() - j,
    {
        if s[i + j] != pat[j] {
            assert(s@.skip(i as int).take(pat@.len() as int)[j as int] != pat@[j as int]);
            return false;
        }
        j = j + 1;
        assert(s@.skip(i as int).take(j as int) =~= pat@.take(j as int));
    }
    assert(pat@.take(j as int) =~= pat@);
    true
}

/// Substitutes the image name for every `__IMAGE_NAME__` of a scaffold template.
pub fn fill_template(template: &str, name: &str) -> (r: String)
    ensures
        r@ == replace_all(template@, NAME_TOKEN@, name@),
{
    proof {
        reveal_strlit("__IMAGE_NAME__");
    }
    let s = chars_of(template);
    let pat = chars_of(NAME_TOKEN);
    let mut out = String::new();
    let mut i: usize = 0;
    assert(s@.skip(0) =~= s@);
    while i < s.len()
        invariant
            s@ == template@,
            pat@ == NAME_TOKEN@,
            pat@.len() > 0,
            i <= s@.len(),
            out@ + replace_all(s@.skip(i as int), pat@, name@) == replace_all(template@, NAME_TOKEN@, name@),
        decreases s@.len() - i,
    {
        let ghost rest = s@.skip(i as int);
        if occurs_at(&s, &pat, i) {
            assert(rest.skip(pat@.len() as int) =~= s@.skip(i + pat@.len()));
            assert(out@ + name@ + replace_all(s@.skip(i + pat@.len()), pat@, name@) == replace_all(template@, NAME_TOKEN@, name@)) by {
                vstd::seq_lib::lemma_concat_associative(out@, name@, replace_all(s@.skip(i + pat@.len()), pat@, name@));
            }
            push_str(&mut out, name);
            i = i + pat.len();
        } else {
            let c = s[i];
            assert(rest.drop_first() =~= s@.skip(i + 1));
            assert(rest[0] == c);
            assert(out@.push(c) + replace_all(s@.skip(i + 1), pat@, name@) == replace_all(template@, NAME_TOKEN@, name@)) by {
                assert(out@.push(c) =~= out@ + seq![c]);
                vstd::seq_lib::lemma_concat_associative(out@, seq![c], replace_all(s@.skip(i + 1), pat@, name@));
            }
            push_char(&mut out, c);
            i = i + 1;
        }
    }
    assert(s@.skip(i as int) =~= Seq::<char>::empty());
    assert(out@ + Seq::<char>::empty() =~= out@);
    out
}

/// The built-in default outputs when neither the image nor the workspace declares any: one
/// `cosi` output.
pub fn default_cosi() -> (r: Vec<OutputSpec>)
    ensures
        outputs_view(r@) == seq![(OutputFormat::Cosi, None::<u8>, None::<Seq<char>>)],
{
    let r = vec![OutputSpec { format: OutputFormat::Cosi, cosi_compression_level: None, name: None }];
    assert(outputs_view(r@) =~= seq![(OutputFormat::Cosi, None::<u8>, None::<Seq<char>>)]);
    r
}

/// A copy of a list of architectures.
fn copy_arches(v: &Vec<Arch>) -> (r: Vec<Arch>)
    ensures
        r@ == v@,
{
    let mut r: Vec<Arch> = Vec::new();
    let mut i: usize = 0;
    while i < v.len()
        invariant
            i <= v@.len(),
            r@ == v@.take(i as int),
        decreases v@.len() - i,
    {
        r.push(v[i]);
        i = i + 1;
        assert(r@ =~= v@.take(i as int));
    }
    assert(v@.take(i as int) =~= v@);
    r
}

/// The architectures a rendered cell is built for: its `arch` axis value when that names a known
/// architecture, else the target's architectures.
pub open spec fn cell_arches_of(tuple: Seq<(Seq<char>, Seq<char>)>, architectures: Seq<Arch>) -> Seq<Arch> {
    match lookup(tuple, "arch"@) {
        Some(v) => match arch_named(v) {
            Some(a) => seq![a],
            None => architectures,
        },
        None => architectures,
    }
}

/// The architectures a rendered cell is built for.
pub fn cell_arches(cell: &RenderedCell, architectures: &Vec<Arch>) -> (r: Vec<Arch>)
    ensures
        r@ == cell_arches_of(cell.tuple.view(), architectures@),
{
    match cell.tuple.get("arch") {
        Some(v) => match parse_arch(v) {
            Some(a) => vec![a],
            None => copy_arches(architectures),
        },
        None => copy_arches(architectures),
    }
}

/// The architectures of an image: its own, else the workspace defaults, else `amd64`.
pub open spec fn target_arches_of(image: Option<Seq<Arch>>, defaults: Option<Seq<Arch>>) -> Seq<Arch> {
    match image {
        Some(a) => a,
        None => match defaults {
            Some(d) => d,
            None => seq![Arch::Amd64],
        },
    }
}

/// The architectures an image is built for.
pub fn target_architectures(image: &Option<Vec<Arch>>, defaults: &Option<Defaults>) -> (r: Vec<Arch>)
    ensures
        r@ == target_arches_of(
            match image { Some(a) => Some(a@), None => None },
            match defaults { Some(d) => match d.architectures { Some(a) => Some(a@), None => None }, None => None },
        ),
{
    match image {
        Some(a) => copy_arches(a),
        None => match defaults {
            Some(d) => match &d.architectures {
                Some(a) => copy_arches(a),
                None => vec![Arch::Amd64],
            },
            None => vec![Arch::Amd64],
        },
    }
}

/// The default outputs of every target: the workspace's, else one `cosi` output.
pub fn target_default_outputs(defaults: &Option<Defaults>) -> (r: Vec<OutputSpec>)
    ensures
        outputs_view(r@) == match defaults {
            Some(d) => match d.outputs {
                Some(o) => outputs_view(o@),
                None => seq![(OutputFormat::Cosi, None::<u8>, None::<Seq<char>>)],
            },
            None => seq![(OutputFormat::Cosi, None::<u8>, None::<Seq<char>>)],
        },
{
    match defaults {
        Some(d) => match &d.outputs {
            Some(o) => {
                let mut r: Vec<OutputSpec> = Vec::new();
                let mut i: usize = 0;
                while i < o.len()
                    invariant
                        i <= o@.len(),
                        outputs_view(r@) == outputs_view(o@.take(i as int)),
                    decreases o@.len() - i,
                {
                    let ghost before = r@;
                    let c = o[i].copy();
                    r.push(c);
                    assert(outputs_view(r@) =~= outputs_view(before).push(c.view()));
                    assert(outputs_view(o@.take(i + 1)) =~= outputs_view(o@.take(i as int)).push(o@[i as int].view()));
                    i = i + 1;
                }
                assert(o@.take(i as int) =~= o@);
                r
            },
            None => default_cosi(),
        },
        None => default_cosi(),
    }
}

/// The images a command targets. With no names (bulk selection) every image not marked `skip`;
/// with names, exactly the named images, whether marked `skip` or not.
pub open spec fn selected_images(names: Seq<Seq<char>>, images: Seq<Seq<char>>, skip: Seq<bool>) -> Seq<int>
    decreases images.len(),
{
    if images.len() == 0 {
        Seq::empty()
    } else {
        let rest = selected_images(names, images.drop_last(), skip.take(images.len() - 1));
        if (names.len() == 0 && !skip[images.len() - 1]) || names.contains(images.last()) {
            rest.push(images.len() - 1)
        } else {
            rest
        }
    }
}

/// The message when named images match nothing.
pub open spec fn no_match_text(names: Seq<Seq<char>>) -> Seq<char> {
    "no matching images: "@ + join_with(names, ", "@)
}

/// The positions (in discovery order) of the images a command targets, or an error when images
/// are named and none of them exists. `skip[i]` says whether image `i` is marked `skip`.
pub fn select_images(names: &Vec<String>, images: &Vec<String>, skip: &Vec<bool>) -> (r: Result<Vec<usize>, String>)
    requires
        skip@.len() == images@.len(),
    ensures
        match r {
            Ok(ix) => ix@.map_values(|i: usize| i as int) == selected_images(views(names@), views(images@), skip@)
                && (names@.len() > 0 ==> ix@.len() > 0),
            Err(msg) => names@.len() > 0 && selected_images(views(names@), views(images@), skip@).len() == 0
                && msg@ == no_match_text(views(names@)),
        },
{
    let mut ix: Vec<usize> = Vec::new();
    let mut i: usize = 0;
    while i < images.len()
        invariant
            i <= images@.len(),
            skip@.len() == images@.len(),
            ix@.map_values(|k: usize| k as int) == selected_images(views(names@), views(images@.take(i as int)), skip@.take(i as int)),
        decreases images@.len() - i,
    {
        let ghost before = ix@;
        assert(views(images@.take(i + 1)).drop_last() =~= views(images@.take(i as int)));
        assert(views(images@.take(i + 1)).last() == images@[i as int]@);
        assert(skip@.take(i + 1).take(i as int) =~= skip@.take(i as int));
        assert(skip@.take(i + 1)[i as int] == skip@[i as int]);
        if (names.len() == 0 && !skip[i]) || contains_string(names, &images[i]) {
            ix.push(i);
            assert(ix@.map_values(|k: usize| k as int) =~= before.map_values(|k: usize| k as int).push(i as int));
        }
        i = i + 1;
    }
    assert(images@.take(i as int) =~= images@);
    assert(skip@.take(i as int) =~= skip@);
    if names.len() > 0 && ix.len() == 0 {
        let mut msg = "no matching images: ".to_owned();
        let joined = join_strings(names, ", ");
        push_str(&mut msg, joined.as_str());
        return Err(msg);
    }
    Ok(ix)
}

/// The image `tailor add axis` edits: the named one, else the only one; an unknown name, an empty
/// workspace, or several images with none named is an error.
pub open spec fn axis_target(name: Option<Seq<char>>, images: Seq<Seq<char>>, axis: Seq<char>) -> Result<int, Seq<char>> {
    match name {
        Some(n) => match index_of(images, n) {
            Some(i) => Ok(i),
            None => Err("unknown image `"@ + n + "`"@),
        },
        None => if images.len() == 1 {
            Ok(0)
        } else if images.len() == 0 {
            Err("no image found here"@)
        } else {
            Err("workspace has multiple images ("@ + join_with(images, ", "@) + "); name one: tailor add axis <image> "@ + axis)
        },
    }
}

/// The position of the image `tailor add axis` edits, or why there is none.
pub fn pick_axis_target(name: Option<&str>, images: &Vec<String>, axis: &str) -> (r: Result<usize, String>)
    ensures
        match axis_target(crate::planning::opt_str(name), views(images@), axis@) {
            Ok(i) => r matches Ok(j) && j as int == i,
            Err(m) => r matches Err(s) && s@ == m,
        },
{
    match name {
        Some(n) => {
            assert(crate::planning::opt_str(name) == Some(n@));
            let mut i: usize = 0;
            proof {
                crate::text::lemma_index_of(views(images@), n@);
            }
            while i < images.len()
                invariant
                    i <= images@.len(),
                    crate::planning::opt_str(name) == Some(n@),
                    forall|j: int| 0 <= j < i ==> views(images@)[j] != n@,
                    crate::text::index_of(views(images@), n@) matches Some(k) ==> 0 <= k < images@.len()
                        && views(images@)[k] == n@ && forall|j: int| 0 <= j < k ==> views(images@)[j] != n@,
                    crate::text::index_of(views(images@), n@) is None ==> !views(images@).contains(n@),
                decreases images@.len() - i,
            {
                let same = str_eq(images[i].as_str(), n);
                assert(views(images@)[i as int] == images@[i as int]@);
                if same {
                    assert(views(images@)[i as int] == n@);
                    assert(axis_target(Some(n@), views(images@), axis@) == Ok::<int, Seq<char>>(i as int));
                    proof {
                        let vs = views(images@);
                        if crate::text::index_of(vs, n@) is None {
                            assert(vs.contains(n@));
                        } else {
                            let k = crate::text::index_of(vs, n@)->0;
                            if k < i {
                                assert(vs[k] != n@);
                            } else if k > i {
                                assert(vs[i as int] != n@);
                            }
                            assert(k == i);
                        }
                    }
                    return Ok(i);
                }
                i = i + 1;
            }
            proof {
                if crate::text::index_of(views(images@), n@) is Some {
                    let k = crate::text::index_of(views(images@), n@)->0;
                    assert(views(images@)[k] != n@);
                }
            }
            let mut m = "unknown image `".to_owned();
            push_str(&mut m, n);
            push_str(&mut m, "`");
            Err(m)
        },
        None => {
            if images.len() == 1 {
                Ok(0)
            } else if images.len() == 0 {
                Err("no image found here".to_owned())
            } else {
                let mut m = "workspace has multiple images (".to_owned();
                let joined = join_strings(images, ", ");
                push_str(&mut m, joined.as_str());
                push_str(&mut m, "); name one: tailor add axis <image> ");
                push_str(&mut m, axis);
                Err(m)
            }
        },
    }
}

} // verus!
