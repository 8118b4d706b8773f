//! Validation and derivation of agent names, and the sanitizers used for
//! compose project names and image tags.
//!
//! An agent name is a filesystem- and container-name-safe identifier:
//! non-empty, not `.` or `..`, drawn from `[A-Za-z0-9._-]`, and at most
//! `MAX_AGENT_NAME_LEN` characters long. A branch name may contain path
//! separators; the derivation below maps it deterministically onto an agent
//! name, so the mapping can be re-derived without stored state.

use vstd::prelude::*;

use crate::codec::chars_to_string;

verus! {

/// Upper bound on the length of a derived agent name, in characters.
pub const MAX_AGENT_NAME_LEN: usize = 64;

/// An ASCII letter or digit.
pub open spec fn spec_is_ascii_alnum(c: char) -> bool {
    (48 <= c as u32 && c as u32 <= 57) || (65 <= c as u32 && c as u32 <= 90) || (97 <= c as u32
        && c as u32 <= 122)
}

/// A character allowed in an agent name.
pub open spec fn spec_is_name_char(c: char) -> bool {
    spec_is_ascii_alnum(c) || c == '.' || c == '_' || c == '-'
}

/// What `is_valid_agent_name` decides: non-empty, not `.` or `..`, and made
/// only of name characters.
pub open spec fn spec_valid_agent_name(s: Seq<char>) -> bool {
    &&& s.len() > 0
    &&& !(s.len() == 1 && s[0] == '.')
    &&& !(s.len() == 2 && s[0] == '.' && s[1] == '.')
    &&& forall|i: int| 0 <= i < s.len() ==> spec_is_name_char(#[trigger] s[i])
}

/// The characters of `s`, in order, as a vector.
pub fn chars_of(s: &str) -> (r: Vec<char>)
    ensures
        r@ == s@,
{
    let mut r: Vec<char> = Vec::new();
    for c in it: s.chars()
        invariant
            r@ == it.seq().take(it.index() as int),
            it.seq() == s@,
    {
        r.push(c);
    }
    proof {
        assert(r@ =~= s@);
    }
    r
}

/// Equality of two character vectors.
pub fn eq_chars(a: &Vec<char>, b: &Vec<char>) -> (r: bool)
    ensures
        r == (a@ == b@),
{
    if a.len() != b.len() {
        return false;
    }
    let mut i: usize = 0;
    while i < a.len()
        invariant
            0 <= i <= a@.len(),
            a@.len() == b@.len(),
            forall|j: int| 0 <= j < i ==> a@[j] == b@[j],
        decreases a@.len() - i,
    {
        if a[i] != b[i] {
            return false;
        }
        i += 1;
    }
    proof {
        assert(a@ =~= b@);
    }
    true
}

/// Equality of two string slices, decided character by character.
pub fn str_eq(a: &str, b: &str) -> (r: bool)
    ensures
        r == (a@ == b@),
{
    let ca = chars_of(a);
    let cb = chars_of(b);
    eq_chars(&ca, &cb)
}

fn is_name_char(c: char) -> (r: bool)
    ensures
        r == spec_is_name_char(c),
{
    let u = c as u32;
    (48 <= u && u <= 57) || (65 <= u && u <= 90) || (97 <= u && u <= 122) || c == '.' || c == '_'
        || c == '-'
}

/// Decides whether `name` may stand as an agent name (length not checked).
pub fn is_valid_agent_name(name: &str) -> (r: bool)
    ensures
        r == spec_valid_agent_name(name@),
{
    let cs = chars_of(name);
    valid_agent_name_chars(&cs)
}

/// `spec_valid_agent_name`, decided over a character vector.
pub fn valid_agent_name_chars(cs: &Vec<char>) -> (r: bool)
    ensures
        r == spec_valid_agent_name(cs@),
{
    if cs.len() == 0 {
        return false;
    }
    if cs.len() == 1 && cs[0] == '.' {
        return false;
    }
    if cs.len() == 2 && cs[0] == '.' && cs[1] == '.' {
        return false;
    }
    let mut i: usize = 0;
    while i < cs.len()
        invariant
            0 <= i <= cs@.len(),
            forall|j: int| 0 <= j < i ==> spec_is_name_char(#[trigger] cs@[j]),
        decreases cs@.len() - i,
    {
        if !is_name_char(cs[i]) {
            return false;
        }
        i += 1;
    }
    true
}

/// Why a branch name yields no agent name.
#[derive(Clone, Copy, Debug, PartialEq, Eq, Structural)]
pub enum NameError {
    /// The derived name would exceed `MAX_AGENT_NAME_LEN` characters.
    TooLong,
    /// Nothing usable is left once the branch name is sanitized.
    Underivable,
}

/// Each character kept as itself if allowed in an agent name, else `_`.
pub open spec fn spec_map_name_char(c: char) -> char {
    if spec_is_name_char(c) {
        c
    } else {
        '_'
    }
}

/// Maps every character through `spec_map_name_char` and collapses runs of
/// `_` into a single `_`. `prev_us` records whether the previous emitted
/// character was `_`.
pub open spec fn spec_collapse_from(s: Seq<char>, prev_us: bool) -> Seq<char>
    decreases s.len(),
{
    if s.len() == 0 {
        Seq::empty()
    } else {
        let m = spec_map_name_char(s[0]);
        if m == '_' && prev_us {
            spec_collapse_from(s.drop_first(), true)
        } else {
            seq![m] + spec_collapse_from(s.drop_first(), m == '_')
        }
    }
}

/// `s` without its leading characters equal to `pad`.
pub open spec fn spec_trim_leading(s: Seq<char>, pad: char) -> Seq<char>
    decreases s.len(),
{
    if s.len() > 0 && s[0] == pad {
        spec_trim_leading(s.drop_first(), pad)
    } else {
        s
    }
}

/// `s` without its trailing characters equal to `pad`.
pub open spec fn spec_trim_trailing(s: Seq<char>, pad: char) -> Seq<char>
    decreases s.len(),
{
    if s.len() > 0 && s[s.len() - 1] == pad {
        spec_trim_trailing(s.drop_last(), pad)
    } else {
        s
    }
}

/// `s` without leading and trailing characters equal to `pad`.
pub open spec fn spec_trim_matches(s: Seq<char>, pad: char) -> Seq<char> {
    spec_trim_trailing(spec_trim_leading(s, pad), pad)
}

/// What `derive_agent_name_from_branch` returns: the branch name itself when
/// it is already a valid agent name, else the sanitized and collapsed form
/// with `_` trimmed from both ends; `TooLong` past `MAX_AGENT_NAME_LEN`
/// characters, `Underivable` when nothing valid is left.
pub open spec fn spec_derive_agent_name(s: Seq<char>) -> Result<Seq<char>, NameError> {
    if spec_valid_agent_name(s) {
        if s.len() > MAX_AGENT_NAME_LEN {
            Err(NameError::TooLong)
        } else {
            Ok(s)
        }
    } else {
        let collapsed = spec_collapse_from(s, false);
        if collapsed.len() > MAX_AGENT_NAME_LEN {
            Err(NameError::TooLong)
        } else {
            let t = spec_trim_matches(collapsed, '_');
            if t.len() == 0 || (t.len() == 1 && t[0] == '.') || (t.len() == 2 && t[0] == '.'
                && t[1] == '.') {
                Err(NameError::Underivable)
            } else {
                Ok(t)
            }
        }
    }
}

/// Removes leading `pad` characters, mirroring `spec_trim_leading`.
fn trim_leading_in_place(v: &mut Vec<char>, pad: char)
    ensures
        final(v)@ == spec_trim_leading(old(v)@, pad),
{
    while v.len() > 0 && v[0] == pad
        invariant
            spec_trim_leading(old(v)@, pad) == spec_trim_leading(v@, pad),
        decreases v@.len(),
    {
        let ghost before = v@;
        v.remove(0);
        proof {
            assert(v@ =~= before.drop_first());
        }
    }
}

/// Removes trailing `pad` characters, mirroring `spec_trim_trailing`.
fn trim_trailing_in_place(v: &mut Vec<char>, pad: char)
    ensures
        final(v)@ == spec_trim_trailing(old(v)@, pad),
{
    while v.len() > 0 && v[v.len() - 1] == pad
        invariant
            spec_trim_trailing(old(v)@, pad) == spec_trim_trailing(v@, pad),
        decreases v@.len(),
    {
        let ghost before = v@;
        v.pop();
        proof {
            assert(v@ =~= before.drop_last());
        }
    }
}

/// Derives the agent name for `branch_name`, as `spec_derive_agent_name`
/// says.
pub fn derive_agent_name_from_branch(branch_name: &str) -> (r: Result<String, NameError>)
    ensures
        r is Ok <==> spec_derive_agent_name(branch_name@) is Ok,
        r is Ok ==> r->Ok_0@ == spec_derive_agent_name(branch_name@)->Ok_0,
        r is Err ==> r->Err_0 == spec_derive_agent_name(branch_name@)->Err_0,
{
    let cs = chars_of(branch_name);
    if valid_agent_name_chars(&cs) {
        if cs.len() > MAX_AGENT_NAME_LEN {
            return Err(NameError::TooLong);
        }
        return Ok(branch_name.to_owned());
    }

    let mut out: Vec<char> = Vec::new();
    let mut prev_us = false;
    let mut i: usize = 0;
    proof {
        assert(cs@.skip(0) =~= cs@);
        assert(out@ + spec_collapse_from(cs@, false) =~= spec_collapse_from(cs@, false));
    }
    while i < cs.len()
        invariant
            0 <= i <= cs@.len(),
            spec_collapse_from(cs@, false) == out@ + spec_collapse_from(cs@.skip(i as int), prev_us),
        decreases cs@.len() - i,
    {
        let ghost pre = cs@.skip(i as int);
        proof {
            assert(pre.len() > 0);
            assert(pre[0] == cs@[i as int]);
            assert(pre.drop_first() =~= cs@.skip(i as int + 1));
        }
        let c = cs[i];
        let m = if is_name_char(c) {
            c
        } else {
            '_'
        };
        if m == '_' && prev_us {
            proof {
                assert(spec_collapse_from(pre, true) == spec_collapse_from(
                    pre.drop_first(),
                    true,
                ));
            }
        } else {
            let ghost out_before = out@;
            out.push(m);
            proof {
                assert(spec_collapse_from(pre, prev_us) == seq![m] + spec_collapse_from(
                    pre.drop_first(),
                    m == '_',
                ));
                assert(out_before + (seq![m] + spec_collapse_from(pre.drop_first(), m == '_'))
                    =~= out@ + spec_collapse_from(pre.drop_first(), m == '_'));
            }
            prev_us = m == '_';
        }
        i += 1;
    }
    proof {
        assert(cs@.skip(cs@.len() as int) =~= Seq::<char>::empty());
        assert(spec_collapse_from(cs@, false) =~= out@);
    }

    if out.len() > MAX_AGENT_NAME_LEN {
        return Err(NameError::TooLong);
    }
    trim_leading_in_place(&mut out, '_');
    trim_trailing_in_place(&mut out, '_');
    if out.len() == 0 {
        return Err(NameError::Underivable);
    }
    if out.len() == 1 && out[0] == '.' {
        return Err(NameError::Underivable);
    }
    if out.len() == 2 && out[0] == '.' && out[1] == '.' {
        return Err(NameError::Underivable);
    }
    Ok(chars_to_string(&out))
}

/// The lowercase form of an ASCII uppercase letter; any other character is
/// kept.
pub open spec fn spec_lower_char(c: char) -> char {
    if 65 <= c as u32 && c as u32 <= 90 {
        ((c as u32 + 32) as u8) as char
    } else {
        c
    }
}

fn lower_char(c: char) -> (r: char)
    ensures
        r == spec_lower_char(c),
{
    let u = c as u32;
    if 65 <= u && u <= 90 {
        ((u + 32) as u8) as char
    } else {
        c
    }
}

/// One character of a compose project name: lowercased, kept if an ASCII
/// letter or digit, else `_`.
pub open spec fn spec_compose_char(c: char) -> char {
    if spec_is_ascii_alnum(spec_lower_char(c)) {
        spec_lower_char(c)
    } else {
        '_'
    }
}

/// What `sanitize_compose` returns: every character masked through
/// `spec_compose_char`, `_` trimmed from both ends, with `workspace` standing
/// in for an empty result.
pub open spec fn spec_sanitize_compose(s: Seq<char>) -> Seq<char> {
    let t = spec_trim_matches(s.map_values(|c: char| spec_compose_char(c)), '_');
    if t.len() == 0 {
        "workspace"@
    } else {
        t
    }
}

/// Sanitizes `raw` into a compose-safe project name component.
pub fn sanitize_compose(raw: &str) -> (r: String)
    ensures
        r@ == spec_sanitize_compose(raw@),
{
    let cs = chars_of(raw);
    let mut out: Vec<char> = Vec::new();
    let mut i: usize = 0;
    while i < cs.len()
        invariant
            0 <= i <= cs@.len(),
            out@ =~= cs@.take(i as int).map_values(|c: char| spec_compose_char(c)),
        decreases cs@.len() - i,
    {
        let l = lower_char(cs[i]);
        let u = l as u32;
        if (48 <= u && u <= 57) || (97 <= u && u <= 122) || (65 <= u && u <= 90) {
            out.push(l);
        } else {
            out.push('_');
        }
        proof {
            assert(cs@.take(i + 1).map_values(|c: char| spec_compose_char(c)) =~= cs@.take(
                i as int,
            ).map_values(|c: char| spec_compose_char(c)) + seq![spec_compose_char(cs@[i as int])]);
        }
        i += 1;
    }
    proof {
        assert(cs@.take(cs@.len() as int) =~= cs@);
    }
    trim_leading_in_place(&mut out, '_');
    trim_trailing_in_place(&mut out, '_');
    if out.len() == 0 {
        String::from_str("workspace")
    } else {
        chars_to_string(&out)
    }
}

/// One character of an image tag: lowercased, kept if an ASCII letter,
/// digit, `.`, `_` or `-`, else `_`.
pub open spec fn spec_image_tag_char(c: char) -> char {
    if spec_is_name_char(spec_lower_char(c)) {
        spec_lower_char(c)
    } else {
        '_'
    }
}

/// What `sanitize_image_tag` returns: every character masked through
/// `spec_image_tag_char`, `_` trimmed from both ends, with `default` standing
/// in for an empty result.
pub open spec fn spec_sanitize_image_tag(s: Seq<char>) -> Seq<char> {
    let t = spec_trim_matches(s.map_values(|c: char| spec_image_tag_char(c)), '_');
    if t.len() == 0 {
        "default"@
    } else {
        t
    }
}

/// Sanitizes `raw` into a container image tag.
pub fn sanitize_image_tag(raw: &str) -> (r: String)
    ensures
        r@ == spec_sanitize_image_tag(raw@),
{
    let cs = chars_of(raw);
    let mut out: Vec<char> = Vec::new();
    let mut i: usize = 0;
    while i < cs.len()
        invariant
            0 <= i <= cs@.len(),
            out@ =~= cs@.take(i as int).map_values(|c: char| spec_image_tag_char(c)),
        decreases cs@.len() - i,
    {
        let l = lower_char(cs[i]);
        if is_name_char(l) {
            out.push(l);
        } else {
            out.push('_');
        }
        proof {
            assert(cs@.take(i + 1).map_values(|c: char| spec_image_tag_char(c)) =~= cs@.take(
                i as int,
            ).map_values(|c: char| spec_image_tag_char(c)) + seq![
                spec_image_tag_char(cs@[i as int]),
            ]);
        }
        i += 1;
    }
    proof {
        assert(cs@.take(cs@.len() as int) =~= cs@);
    }
    trim_leading_in_place(&mut out, '_');
    trim_trailing_in_place(&mut out, '_');
    if out.len() == 0 {
        String::from_str("default")
    } else {
        chars_to_string(&out)
    }
}

/// The canonical hierarchical id behind a short historical component name.
pub open spec fn spec_map_legacy_component_name(s: Seq<char>) -> Seq<char> {
    if s == "python"@ {
        "lang/python"@
    } else if s == "uv"@ {
        "tool/python/uv"@
    } else if s == "go"@ {
        "lang/go"@
    } else if s == "node"@ {
        "lang/node"@
    } else if s == "pnpm"@ {
        "tool/node/pnpm"@
    } else if s == "desktop"@ {
        "extra/desktop"@
    } else {
        s
    }
}

/// Maps short historical component names onto canonical hierarchical ids.
pub fn map_legacy_component_name(s: &str) -> (r: String)
    ensures
        r@ == spec_map_legacy_component_name(s@),
{
    if str_eq(s, "python") {
        String::from_str("lang/python")
    } else if str_eq(s, "uv") {
        String::from_str("tool/python/uv")
    } else if str_eq(s, "go") {
        String::from_str("lang/go")
    } else if str_eq(s, "node") {
        String::from_str("lang/node")
    } else if str_eq(s, "pnpm") {
        String::from_str("tool/node/pnpm")
    } else if str_eq(s, "desktop") {
        String::from_str("extra/desktop")
    } else {
        s.to_owned()
    }
}

/// Why a template name is refused.
#[derive(Clone, Copy, Debug, PartialEq, Eq, Structural)]
pub enum TemplateNameError {
    /// The name is empty.
    Empty,
    /// The name is one of the reserved directory names.
    Reserved,
    /// The name contains a path separator.
    PathSeparator,
}

/// Whether `s` holds a path separator.
pub open spec fn spec_has_path_separator(s: Seq<char>) -> bool {
    exists|i: int| 0 <= i < s.len() && ((#[trigger] s[i]) == '/' || s[i] == '\\')
}

/// What `validate_template_name` decides: non-empty, not one of the reserved
/// names, and free of path separators.
pub open spec fn spec_validate_template_name(s: Seq<char>) -> Result<(), TemplateNameError> {
    if s.len() == 0 {
        Err(TemplateNameError::Empty)
    } else if s == ".components"@ || s == ".profiles"@ || s == "runtime"@ {
        Err(TemplateNameError::Reserved)
    } else if spec_has_path_separator(s) {
        Err(TemplateNameError::PathSeparator)
    } else {
        Ok(())
    }
}

/// Checks a template directory name before anything is written under it.
pub fn validate_template_name(name: &str) -> (r: Result<(), TemplateNameError>)
    ensures
        r == spec_validate_template_name(name@),
{
    let cs = chars_of(name);
    if cs.len() == 0 {
        return Err(TemplateNameError::Empty);
    }
    if str_eq(name, ".components") || str_eq(name, ".profiles") || str_eq(name, "runtime") {
        return Err(TemplateNameError::Reserved);
    }
    let mut i: usize = 0;
    while i < cs.len()
        invariant
            0 <= i <= cs@.len(),
            cs@ == name@,
            name@.len() > 0,
            !(name@ == ".components"@ || name@ == ".profiles"@ || name@ == "runtime"@),
            forall|j: int| 0 <= j < i ==> !((#[trigger] cs@[j]) == '/' || cs@[j] == '\\'),
        decreases cs@.len() - i,
    {
        if cs[i] == '/' || cs[i] == '\\' {
            proof {
                let wi = i as int;
                assert(0 <= wi < name@.len() && (name@[wi] == '/' || name@[wi] == '\\'));
                assert(spec_has_path_separator(name@));
            }
            return Err(TemplateNameError::PathSeparator);
        }
        i += 1;
    }
    Ok(())
}

} // verus!
