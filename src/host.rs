//! Helpers of the host API that guest scripts see: log argument joining,
//! the module search path, script discovery, and message colours.

use vstd::prelude::*;
use vstd::string::*;
use crate::manager::ScriptEntry;
use crate::text::text_eq;

verus! {

/// The parts joined with `", "` between them.
pub open spec fn joined(parts: Seq<Seq<char>>) -> Seq<char>
    decreases parts.len(),
{
    if parts.len() == 0 {
        Seq::empty()
    } else if parts.len() == 1 {
        parts[0]
    } else {
        joined(parts.drop_last()) + ", "@ + parts.last()
    }
}

/// The text of a log call: its arguments, each already displayed, joined
/// with `", "`.
pub fn join_values(parts: &Vec<String>) -> (r: String)
    ensures
        r@ == joined(parts@.map_values(|p: String| p@)),
{
    let ghost views = parts@.map_values(|p: String| p@);
    let mut out = String::new();
    let mut i: usize = 0;
    while i < parts.len()
        invariant
            i <= parts@.len(),
            views == parts@.map_values(|p: String| p@),
            out@ == joined(views.take(i as int)),
        decreases parts@.len() - i,
    {
        proof {
            assert(views.take(i + 1).drop_last() =~= views.take(i as int));
            if i == 0 {
                assert(views.take(0) =~= Seq::<Seq<char>>::empty());
            }
        }
        if i > 0 {
            out.append(", ");
        }
        out.append(parts[i].as_str());
        i = i + 1;
        proof {
            if i == 1 {
                assert(views.take(1) =~= seq![views[0]]);
                assert(out@ =~= views[0]);
            }
        }
    }
    assert(views.take(parts@.len() as int) =~= views);
    out
}

/// The module search path with the scripts directory added at its end.
pub fn package_path(path: &str) -> (r: String)
    ensures
        r@ == path@ + ";./LuaEngineEx/?.lua"@,
{
    let mut out = path.to_owned();
    out.append(";./LuaEngineEx/?.lua");
    out
}

/// Whether a file name has the script extension: it ends in `.lua` after a
/// non-empty stem.
pub open spec fn is_script_name(name: Seq<char>) -> bool {
    name.len() > 4 && name.subrange(name.len() - 4, name.len() as int) == ".lua"@
}

pub fn is_script_file(name: &str) -> (r: bool)
    ensures
        r == is_script_name(name@),
{
    proof {
        reveal_strlit(".lua");
    }
    let ext = ".lua";
    let n = name.unicode_len();
    if n <= 4 {
        return false;
    }
    let mut i: usize = 0;
    while i < 4
        invariant
            n == name@.len(),
            n > 4,
            ext@ == ".lua"@,
            ext@.len() == 4,
            i <= 4,
            forall|k: int| 0 <= k < i ==> name@[n - 4 + k] == ext@[k],
        decreases 4 - i,
    {
        if name.get_char(n - 4 + i) != ext.get_char(i) {
            assert(name@.subrange(n - 4, n as int)[i as int] != ".lua"@[i as int]);
            return false;
        }
        i = i + 1;
    }
    assert(name@.subrange(n - 4, n as int) =~= ".lua"@);
    true
}

/// The scripts among the file names of a directory: those with the script
/// extension, in order, each with its path `dir/name`.
pub open spec fn scripts_in(dir: Seq<char>, names: Seq<Seq<char>>) -> Seq<(Seq<char>, Seq<char>)>
    decreases names.len(),
{
    if names.len() == 0 {
        Seq::empty()
    } else {
        let before = scripts_in(dir, names.drop_last());
        let n = names.last();
        if is_script_name(n) {
            before.push((n, dir + "/"@ + n))
        } else {
            before
        }
    }
}

/// The scripts that discovery offers from the file names of `dir`.
pub fn select_scripts(dir: &str, names: &Vec<String>) -> (r: Vec<ScriptEntry>)
    ensures
        r@.map_values(|e: ScriptEntry| (e.name@, e.path@)) == scripts_in(dir@, names@.map_values(|n: String| n@)),
{
    let ghost views = names@.map_values(|n: String| n@);
    let mut out: Vec<ScriptEntry> = Vec::new();
    let mut i: usize = 0;
    while i < names.len()
        invariant
            i <= names@.len(),
            views == names@.map_values(|n: String| n@),
            out@.map_values(|e: ScriptEntry| (e.name@, e.path@)) == scripts_in(dir@, views.take(i as int)),
        decreases names@.len() - i,
    {
        proof {
            assert(views.take(i + 1).drop_last() =~= views.take(i as int));
        }
        let ghost before = out@;
        if is_script_file(names[i].as_str()) {
            let mut path = dir.to_owned();
            path.append("/");
            path.append(names[i].as_str());
            out.push(ScriptEntry { name: names[i].clone(), path });
            assert(out@.map_values(|e: ScriptEntry| (e.name@, e.path@)) =~= before.map_values(
                |e: ScriptEntry| (e.name@, e.path@),
            ).push((names@[i as int]@, dir@ + "/"@ + names@[i as int]@)));
        }
        i = i + 1;
    }
    assert(views.take(names@.len() as int) =~= views);
    out
}

/// The colours of system messages.
#[derive(Debug, Clone, Copy, PartialEq, Eq, Structural)]
pub enum MessageColor {
    Blue,
    Purple,
}

/// The colour that a lower-case colour name names.
pub open spec fn color_named(s: Seq<char>) -> Option<MessageColor> {
    if s == "blue"@ || s == "general"@ {
        Some(MessageColor::Blue)
    } else if s == "purple"@ || s == "primary"@ {
        Some(MessageColor::Purple)
    } else {
        None
    }
}

/// The colour that an already lower-cased name names.
pub fn color_of_lowered(s: &str) -> (r: Option<MessageColor>)
    ensures
        r == color_named(s@),
{
    if text_eq(s, "blue") || text_eq(s, "general") {
        Some(MessageColor::Blue)
    } else if text_eq(s, "purple") || text_eq(s, "primary") {
        Some(MessageColor::Purple)
    } else {
        None
    }
}

/// The lower-case form of a string.
pub uninterp spec fn lower_of(s: Seq<char>) -> Seq<char>;

/// Relies on str::to_lowercase: the lower-case form, which depends on the
/// characters alone.
#[verifier::external_body]
fn lowercase(s: &str) -> (r: String)
    ensures
        r@ == lower_of(s@),
{
    s.to_lowercase()
}

/// The colour of a system message: blue when none is named, else the colour
/// that the name names in any case, or `None` for an unknown name.
pub fn message_color(color: Option<&str>) -> (r: Option<MessageColor>)
    ensures
        match color {
            None => r == Some(MessageColor::Blue),
            Some(c) => r == color_named(lower_of(c@)),
        },
{
    match color {
        None => Some(MessageColor::Blue),
        Some(c) => {
            let lowered = lowercase(c);
            color_of_lowered(lowered.as_str())
        },
    }
}

} // verus!
