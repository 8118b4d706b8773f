//! The stealth compose rewriter.
//!
//! Used when a sandbox must start for a workspace that has no committed
//! configuration. The rendered compose text is rewritten line by line: the
//! primary service's workspace bind-mount source becomes an
//! externally-supplied placeholder; a companion read-only mount of the
//! generated configuration directory is inserted after it unless one is
//! already present; and the primary service's build step, if any, is
//! replaced by a pinned image reference derived from the sanitized default
//! image seed. A compose text without the conventional workspace mount is
//! a hard error: stealth mode cannot be silently skipped.

use vstd::prelude::*;

use crate::codec::chars_to_string;
use crate::names::{chars_of, eq_chars, sanitize_image_tag, spec_sanitize_image_tag};
use crate::text::{append_chars, clone_chars, matches_at, spec_matches_at};

verus! {

/// The number of leading blanks on a line.
pub open spec fn spec_indent(l: Seq<char>) -> int
    decreases l.len(),
{
    if l.len() > 0 && (l[0] == ' ' || l[0] == '\t') {
        1 + spec_indent(l.drop_first())
    } else {
        0
    }
}

/// The line without its leading blanks.
pub open spec fn spec_trim_start(l: Seq<char>) -> Seq<char> {
    l.skip(spec_indent(l))
}

/// A line with a trailing carriage return removed.
pub open spec fn spec_trim_cr(l: Seq<char>) -> Seq<char> {
    if l.len() > 0 && l[l.len() - 1] == '\r' {
        l.drop_last()
    } else {
        l
    }
}

/// Splits the rest of the text into lines, with `cur` the line being
/// gathered: a line feed closes the gathered line, a trailing carriage
/// return is removed from each closed line, and a non-empty remainder
/// closes the final line.
pub open spec fn spec_split_from(s: Seq<char>, cur: Seq<char>) -> Seq<Seq<char>>
    decreases s.len(),
{
    if s.len() == 0 {
        if cur.len() > 0 {
            seq![spec_trim_cr(cur)]
        } else {
            Seq::empty()
        }
    } else if s[0] == '\n' {
        seq![spec_trim_cr(cur)] + spec_split_from(s.drop_first(), Seq::empty())
    } else {
        spec_split_from(s.drop_first(), cur.push(s[0]))
    }
}

/// The lines of `s`: split at line feeds, each with a trailing carriage
/// return removed, without a final empty line when the text ends with a
/// line feed.
pub open spec fn spec_split_lines(s: Seq<char>) -> Seq<Seq<char>> {
    spec_split_from(s, Seq::empty())
}

/// The index of the first occurrence of `pat` in `s`.
pub open spec fn spec_find_sub(s: Seq<char>, pat: Seq<char>) -> Option<int>
    decreases s.len(),
{
    if pat.len() > s.len() {
        None
    } else if s.subrange(0, pat.len() as int) == pat {
        Some(0int)
    } else if s.len() == 0 {
        None
    } else {
        match spec_find_sub(s.drop_first(), pat) {
            None => None,
            Some(i) => Some(i + 1),
        }
    }
}

/// Whether `pat` occurs in `s`.
pub open spec fn spec_contains_sub(s: Seq<char>, pat: Seq<char>) -> bool {
    spec_find_sub(s, pat) is Some
}

/// `n` spaces.
pub open spec fn spec_spaces(n: int) -> Seq<char> {
    Seq::new(n as nat, |i: int| ' ')
}

/// The line-machine state of the rewrite.
pub struct StealthStV {
    /// The walk stands inside the primary service's block.
    pub in_dev: bool,
    /// The walk stands inside a build block being dropped.
    pub skipping: bool,
    /// A workspace bind-mount has been rewritten.
    pub saw_mount: bool,
    /// The companion configuration mount has been inserted.
    pub inserted: bool,
}

/// The fixed target mount path convention for the workspace.
pub open spec fn spec_workspace_needle() -> Seq<char> {
    ":/workspaces/workspace"@
}

/// What one line becomes: the lines emitted in its place and the state the
/// walk continues with.
pub open spec fn spec_stealth_step(
    l: Seq<char>,
    st: StealthStV,
    image_line: Seq<char>,
    already: bool,
) -> (Seq<Seq<char>>, StealthStV) {
    let trimmed = spec_trim_start(l);
    let indent = spec_indent(l);
    let st1 = if indent == 2 && trimmed == "dev:"@ {
        StealthStV { in_dev: true, ..st }
    } else if indent == 2 && trimmed.len() > 0 && trimmed[trimmed.len() - 1] == ':' && trimmed
        != "dev:"@ {
        StealthStV { in_dev: false, ..st }
    } else {
        st
    };
    if st1.in_dev && st1.skipping && indent > 4 {
        (Seq::empty(), st1)
    } else {
        let st2 = StealthStV { skipping: false, ..st1 };
        if st2.in_dev && indent == 4 && trimmed == "build:"@ {
            (seq![image_line], StealthStV { skipping: true, ..st2 })
        } else if trimmed.len() >= 2 && trimmed[0] == '-' && trimmed[1] == ' '
            && spec_contains_sub(trimmed, spec_workspace_needle()) && spec_find_sub(
            trimmed.skip(2),
            spec_workspace_needle(),
        ) is Some {
            let item = trimmed.skip(2);
            let idx = spec_find_sub(item, spec_workspace_needle())->0;
            let rest = item.skip(idx);
            let new_line = spec_spaces(indent) + "- ${PC_WORKSPACE_DIR}"@ + rest;
            let st3 = StealthStV { saw_mount: true, ..st2 };
            if !already && !st3.inserted {
                (
                    seq![
                        new_line,
                        spec_spaces(indent)
                            + "- ${PC_DEVCONTAINER_DIR}:/workspaces/workspace/.devcontainer:ro"@,
                    ],
                    StealthStV { inserted: true, ..st3 },
                )
            } else {
                (seq![new_line], st3)
            }
        } else {
            (seq![l], st2)
        }
    }
}

/// Walks the lines, threading the state and concatenating what each line
/// becomes.
pub open spec fn spec_stealth_lines(
    lines: Seq<Seq<char>>,
    st: StealthStV,
    image_line: Seq<char>,
    already: bool,
) -> (Seq<Seq<char>>, StealthStV)
    decreases lines.len(),
{
    if lines.len() == 0 {
        (Seq::empty(), st)
    } else {
        let (emitted, st1) = spec_stealth_step(lines[0], st, image_line, already);
        let (rest, st2) = spec_stealth_lines(lines.drop_first(), st1, image_line, already);
        (emitted + rest, st2)
    }
}

/// The lines joined with line feeds, with one final line feed.
pub open spec fn spec_join_lines(lines: Seq<Seq<char>>) -> Seq<char>
    decreases lines.len(),
{
    if lines.len() == 0 {
        Seq::empty()
    } else {
        lines[0] + "\n"@ + spec_join_lines(lines.drop_first())
    }
}

/// The pinned image line that replaces a build step.
pub open spec fn spec_image_line(default_image: Seq<char>) -> Seq<char> {
    "    image: ${DEVCONTAINER_IMAGE:-pc-devcontainer:"@ + spec_sanitize_image_tag(default_image)
        + "}"@
}

/// What the rewrite returns: the state starts clear, the lines walk
/// through `spec_stealth_step`, and a walk that rewrote no workspace mount
/// is an error.
pub open spec fn spec_make_compose_stealth(s: Seq<char>, default_image: Seq<char>) -> Option<
    Seq<char>,
> {
    let lines = spec_split_lines(s);
    let already = spec_contains_sub(s, "/workspaces/workspace/.devcontainer"@);
    let st0 = StealthStV { in_dev: false, skipping: false, saw_mount: false, inserted: false };
    let (out, st) = spec_stealth_lines(lines, st0, spec_image_line(default_image), already);
    if st.saw_mount {
        Some(spec_join_lines(out))
    } else {
        None
    }
}

} // verus!

verus! {

/// Decides `spec_find_sub`, scanning from the front.
#[verifier::loop_isolation(false)]
pub fn find_sub(s: &Vec<char>, pat: &Vec<char>) -> (r: Option<usize>)
    ensures
        r is Some <==> spec_find_sub(s@, pat@) is Some,
        r is Some ==> r->0 == spec_find_sub(s@, pat@)->0,
{
    let mut i: usize = 0;
    proof {
        assert(s@.skip(0) =~= s@);
    }
    while i < s.len() || (i == s.len() && pat.len() == 0)
        invariant
            0 <= i <= s@.len(),
            ({
                let whole = spec_find_sub(s@, pat@);
                let rest = spec_find_sub(s@.skip(i as int), pat@);
                &&& (whole is Some <==> rest is Some)
                &&& whole is Some ==> whole->0 == rest->0 + i
            }),
        decreases s@.len() - i + 1,
    {
        let ghost suffix = s@.skip(i as int);
        if matches_at(s, i, pat) {
            proof {
                assert(suffix.subrange(0, pat@.len() as int) =~= s@.subrange(
                    i as int,
                    i + pat@.len(),
                ));
                assert(spec_find_sub(suffix, pat@) == Some(0int));
            }
            return Some(i);
        }
        if i == s.len() {
            proof {
                assert(suffix.len() == 0);
                if pat@.len() == 0 {
                    assert(s@.subrange(i as int, i as int) =~= pat@);
                }
                assert(pat@.len() > 0);
                assert(spec_find_sub(suffix, pat@) is None);
            }
            return None;
        }
        proof {
            if pat@.len() <= suffix.len() {
                assert(suffix.subrange(0, pat@.len() as int) =~= s@.subrange(
                    i as int,
                    i + pat@.len(),
                ));
            }
            assert(suffix.drop_first() =~= s@.skip(i as int + 1));
        }
        i += 1;
    }
    proof {
        assert(s@.skip(s@.len() as int).len() == 0);
    }
    None
}

/// The number of leading blanks, decided by scan.
#[verifier::loop_isolation(false)]
fn indent_of(l: &Vec<char>) -> (n: usize)
    ensures
        n == spec_indent(l@),
        n <= l@.len(),
{
    let mut i: usize = 0;
    proof {
        assert(l@.skip(0) =~= l@);
    }
    while i < l.len() && (l[i] == ' ' || l[i] == '\t')
        invariant
            0 <= i <= l@.len(),
            spec_indent(l@) == i + spec_indent(l@.skip(i as int)),
        decreases l@.len() - i,
    {
        proof {
            assert(l@.skip(i as int)[0] == l@[i as int]);
            assert(l@.skip(i as int).drop_first() =~= l@.skip(i as int + 1));
        }
        i += 1;
    }
    proof {
        if i < l@.len() {
            assert(l@.skip(i as int)[0] == l@[i as int]);
        } else {
            assert(l@.skip(i as int).len() == 0);
        }
        assert(spec_indent(l@.skip(i as int)) == 0);
    }
    i
}

/// The characters of `l` from `n` on.
#[verifier::loop_isolation(false)]
fn tail_from(l: &Vec<char>, n: usize) -> (r: Vec<char>)
    requires
        n <= l@.len(),
    ensures
        r@ == l@.skip(n as int),
{
    let mut r: Vec<char> = Vec::new();
    let mut i: usize = n;
    while i < l.len()
        invariant
            n <= i <= l@.len(),
            r@ == l@.subrange(n as int, i as int),
        decreases l@.len() - i,
    {
        r.push(l[i]);
        proof {
            assert(l@.subrange(n as int, i + 1) =~= l@.subrange(n as int, i as int).push(
                l@[i as int],
            ));
        }
        i += 1;
    }
    proof {
        assert(l@.subrange(n as int, l@.len() as int) =~= l@.skip(n as int));
    }
    r
}

/// `n` spaces.
#[verifier::loop_isolation(false)]
fn spaces(n: usize) -> (r: Vec<char>)
    ensures
        r@ == spec_spaces(n as int),
{
    let mut r: Vec<char> = Vec::new();
    let mut i: usize = 0;
    while i < n
        invariant
            0 <= i <= n,
            r@.len() == i,
            forall|j: int| 0 <= j < i ==> r@[j] == ' ',
        decreases n - i,
    {
        r.push(' ');
        i += 1;
    }
    proof {
        assert(r@ =~= spec_spaces(n as int));
    }
    r
}

/// The views of a sequence of lines.
pub open spec fn lines_view(v: Seq<Vec<char>>) -> Seq<Seq<char>> {
    v.map_values(|l: Vec<char>| l@)
}

/// Splits text into lines, as `spec_split_lines` says.
#[verifier::loop_isolation(false)]
fn split_lines(s: &Vec<char>) -> (r: Vec<Vec<char>>)
    ensures
        lines_view(r@) == spec_split_lines(s@),
{
    let mut out: Vec<Vec<char>> = Vec::new();
    let mut cur: Vec<char> = Vec::new();
    let mut i: usize = 0;
    proof {
        assert(s@.skip(0) =~= s@);
        assert(lines_view(out@) =~= Seq::<Seq<char>>::empty());
        assert(lines_view(out@) + spec_split_from(s@, cur@) =~= spec_split_from(s@, cur@));
    }
    while i < s.len()
        invariant
            0 <= i <= s@.len(),
            spec_split_lines(s@) == lines_view(out@) + spec_split_from(s@.skip(i as int), cur@),
        decreases s@.len() - i,
    {
        let ghost suffix = s@.skip(i as int);
        proof {
            assert(suffix[0] == s@[i as int]);
            assert(suffix.drop_first() =~= s@.skip(i as int + 1));
        }
        if s[i] == '\n' {
            let mut line = cur;
            if line.len() > 0 && line[line.len() - 1] == '\r' {
                let ghost before = line@;
                line.pop();
                proof {
                    assert(line@ =~= before.drop_last());
                }
            }
            let ghost out_before = lines_view(out@);
            out.push(line);
            cur = Vec::new();
            proof {
                assert(lines_view(out@) =~= out_before.push(out@[out@.len() - 1]@));
                assert(out_before + (seq![out@[out@.len() - 1]@] + spec_split_from(
                    s@.skip(i as int + 1),
                    cur@,
                )) =~= lines_view(out@) + spec_split_from(s@.skip(i as int + 1), cur@));
            }
        } else {
            let ghost cur_before = cur@;
            cur.push(s[i]);
            proof {
                assert(cur@ =~= cur_before.push(s@[i as int]));
            }
        }
        i += 1;
    }
    proof {
        assert(s@.skip(s@.len() as int).len() == 0);
    }
    if cur.len() > 0 {
        let mut line = cur;
        if line.len() > 0 && line[line.len() - 1] == '\r' {
            let ghost before = line@;
            line.pop();
            proof {
                assert(line@ =~= before.drop_last());
            }
        }
        let ghost out_before = lines_view(out@);
        out.push(line);
        proof {
            assert(lines_view(out@) =~= out_before.push(out@[out@.len() - 1]@));
        }
    } else {
        proof {
            assert(lines_view(out@) + Seq::<Seq<char>>::empty() =~= lines_view(out@));
        }
    }
    out
}

} // verus!

verus! {

/// Rewrites a rendered compose text for stealth use, as
/// `spec_make_compose_stealth` says: the returned text when the
/// conventional workspace mount was found and rewritten, nothing when it
/// is absent.
#[verifier::loop_isolation(false)]
#[verifier::rlimit(100)]
pub fn make_compose_stealth(compose: &str, default_image: &str) -> (r: Option<String>)
    ensures
        r is Some <==> spec_make_compose_stealth(compose@, default_image@) is Some,
        r is Some ==> r->0@ == spec_make_compose_stealth(compose@, default_image@)->0,
{
    let text = chars_of(compose);
    let dc_needle = chars_of("/workspaces/workspace/.devcontainer");
    let already = match find_sub(&text, &dc_needle) {
        Some(_) => true,
        None => false,
    };
    let mut image_line = chars_of("    image: ${DEVCONTAINER_IMAGE:-pc-devcontainer:");
    let tag = sanitize_image_tag(default_image);
    let tagc = chars_of(tag.as_str());
    append_chars(&mut image_line, &tagc);
    image_line.push('}');
    proof {
        assert(image_line@ =~= spec_image_line(default_image@)) by {
            assert("}"@.len() == 1 && "}"@[0] == '}') by {
                reveal_strlit("}");
            }
        }
    }
    let ghost ilv = image_line@;

    let lines = split_lines(&text);
    let ghost lv = lines_view(lines@);
    let ghost st0 = StealthStV { in_dev: false, skipping: false, saw_mount: false, inserted: false };

    let mut out: Vec<Vec<char>> = Vec::new();
    let mut in_dev = false;
    let mut skipping = false;
    let mut saw_mount = false;
    let mut inserted = false;
    let mut i: usize = 0;
    let dev_lit = chars_of("dev:");
    let build_lit = chars_of("build:");
    let ws_needle = chars_of(":/workspaces/workspace");
    let ws_prefix = chars_of("- ${PC_WORKSPACE_DIR}");
    let dc_mount = chars_of("- ${PC_DEVCONTAINER_DIR}:/workspaces/workspace/.devcontainer:ro");
    proof {
        assert(lv.skip(0) =~= lv);
        assert(lines_view(out@) =~= Seq::<Seq<char>>::empty());
        assert(lines_view(out@) + spec_stealth_lines(lv, st0, ilv, already).0 =~= spec_stealth_lines(
            lv,
            st0,
            ilv,
            already,
        ).0);
    }
    while i < lines.len()
        invariant
            0 <= i <= lines@.len(),
            lv == lines_view(lines@),
            ilv == image_line@,
            dev_lit@ == "dev:"@,
            build_lit@ == "build:"@,
            ws_needle@ == spec_workspace_needle(),
            ws_prefix@ == "- ${PC_WORKSPACE_DIR}"@,
            dc_mount@ == "- ${PC_DEVCONTAINER_DIR}:/workspaces/workspace/.devcontainer:ro"@,
            ({
                let cur = StealthStV {
                    in_dev: in_dev,
                    skipping: skipping,
                    saw_mount: saw_mount,
                    inserted: inserted,
                };
                let whole = spec_stealth_lines(lv, st0, ilv, already);
                let rest = spec_stealth_lines(lv.skip(i as int), cur, ilv, already);
                whole.0 == lines_view(out@) + rest.0 && whole.1 == rest.1
            }),
        decreases lines@.len() - i,
    {
        let ghost lcur = lv.skip(i as int);
        proof {
            assert(lcur.len() > 0);
            assert(lcur[0] == lv[i as int]);
            assert(lcur.drop_first() =~= lv.skip(i as int + 1));
        }
        let ghost st_entry = StealthStV {
            in_dev: in_dev,
            skipping: skipping,
            saw_mount: saw_mount,
            inserted: inserted,
        };
        let line: &Vec<char> = &lines[i];
        let indent = indent_of(line);
        let trimmed = tail_from(line, indent);
        if indent == 2 && eq_chars(&trimmed, &dev_lit) {
            in_dev = true;
        } else if indent == 2 && trimmed.len() > 0 && trimmed[trimmed.len() - 1] == ':'
            && !eq_chars(&trimmed, &dev_lit) {
            in_dev = false;
        }
        let ghost st1 = StealthStV { in_dev: in_dev, ..st_entry };
        if in_dev && skipping && indent > 4 {
            // a dropped build block's inner line
            proof {
                assert(spec_stealth_step(lcur[0], st_entry, ilv, already) == (
                    Seq::<Seq<char>>::empty(),
                    st1,
                ));
                assert(lines_view(out@) + (Seq::<Seq<char>>::empty() + spec_stealth_lines(
                    lcur.drop_first(),
                    st1,
                    ilv,
                    already,
                ).0) =~= lines_view(out@) + spec_stealth_lines(
                    lcur.drop_first(),
                    st1,
                    ilv,
                    already,
                ).0);
            }
            i += 1;
            continue ;
        }
        skipping = false;
        let ghost st2 = StealthStV { skipping: false, ..st1 };
        if in_dev && indent == 4 && eq_chars(&trimmed, &build_lit) {
            let ghost out_before = lines_view(out@);
            out.push(clone_chars(&image_line));
            skipping = true;
            proof {
                assert(lines_view(out@) =~= out_before.push(ilv));
                assert(out_before + (seq![ilv] + spec_stealth_lines(
                    lcur.drop_first(),
                    StealthStV { skipping: true, ..st2 },
                    ilv,
                    already,
                ).0) =~= lines_view(out@) + spec_stealth_lines(
                    lcur.drop_first(),
                    StealthStV { skipping: true, ..st2 },
                    ilv,
                    already,
                ).0);
            }
            i += 1;
            continue ;
        }
        let is_item = trimmed.len() >= 2 && trimmed[0] == '-' && trimmed[1] == ' ';
        let mut handled = false;
        if is_item {
            match find_sub(&trimmed, &ws_needle) {
                Some(_) => {
                    let item = tail_from(&trimmed, 2);
                    match find_sub(&item, &ws_needle) {
                        Some(idx) => {
                            proof {
                                assert(idx as int == spec_find_sub(
                                    item@,
                                    spec_workspace_needle(),
                                )->0);
                                crate::stealth::lemma_find_sub_in_range(
                                    item@,
                                    spec_workspace_needle(),
                                );
                            }
                            let rest = tail_from(&item, idx);
                            let mut new_line = spaces(indent);
                            append_chars(&mut new_line, &ws_prefix);
                            append_chars(&mut new_line, &rest);
                            let ghost out_before = lines_view(out@);
                            out.push(new_line);
                            saw_mount = true;
                            let ghost st3 = StealthStV { saw_mount: true, ..st2 };
                            if !already && !inserted {
                                let mut mount_line = spaces(indent);
                                append_chars(&mut mount_line, &dc_mount);
                                out.push(mount_line);
                                inserted = true;
                                proof {
                                    let step = spec_stealth_step(lcur[0], st_entry, ilv, already);
                                    assert(lines_view(out@) =~= out_before + step.0);
                                    assert(out_before + (step.0 + spec_stealth_lines(
                                        lcur.drop_first(),
                                        step.1,
                                        ilv,
                                        already,
                                    ).0) =~= lines_view(out@) + spec_stealth_lines(
                                        lcur.drop_first(),
                                        step.1,
                                        ilv,
                                        already,
                                    ).0);
                                }
                            } else {
                                proof {
                                    let step = spec_stealth_step(lcur[0], st_entry, ilv, already);
                                    assert(lines_view(out@) =~= out_before + step.0);
                                    assert(out_before + (step.0 + spec_stealth_lines(
                                        lcur.drop_first(),
                                        step.1,
                                        ilv,
                                        already,
                                    ).0) =~= lines_view(out@) + spec_stealth_lines(
                                        lcur.drop_first(),
                                        step.1,
                                        ilv,
                                        already,
                                    ).0);
                                }
                            }
                            handled = true;
                        },
                        None => {},
                    }
                },
                None => {},
            }
        }
        if !handled {
            let ghost out_before = lines_view(out@);
            out.push(clone_chars(&lines[i]));
            proof {
                let step = spec_stealth_step(lcur[0], st_entry, ilv, already);
                assert(step == (seq![lcur[0]], st2));
                assert(lines_view(out@) =~= out_before.push(lv[i as int]));
                assert(out_before + (seq![lcur[0]] + spec_stealth_lines(
                    lcur.drop_first(),
                    st2,
                    ilv,
                    already,
                ).0) =~= lines_view(out@) + spec_stealth_lines(
                    lcur.drop_first(),
                    st2,
                    ilv,
                    already,
                ).0);
            }
        }
        i += 1;
    }
    proof {
        assert(lv.skip(lines@.len() as int) =~= Seq::<Seq<char>>::empty());
        assert(lines_view(out@) + Seq::<Seq<char>>::empty() =~= lines_view(out@));
    }
    if !saw_mount {
        return None;
    }
    let mut joined: Vec<char> = Vec::new();
    let mut k: usize = 0;
    let ghost ov = lines_view(out@);
    proof {
        assert(ov.skip(0) =~= ov);
        assert(joined@ + spec_join_lines(ov) =~= spec_join_lines(ov));
    }
    while k < out.len()
        invariant
            0 <= k <= out@.len(),
            ov == lines_view(out@),
            spec_join_lines(ov) == joined@ + spec_join_lines(ov.skip(k as int)),
        decreases out@.len() - k,
    {
        let ghost jcur = ov.skip(k as int);
        proof {
            assert(jcur[0] == ov[k as int]);
            assert(jcur.drop_first() =~= ov.skip(k as int + 1));
        }
        let ghost j_before = joined@;
        append_chars(&mut joined, &out[k]);
        joined.push('\n');
        proof {
            assert(joined@ =~= j_before + (ov[k as int] + "\n"@)) by {
                assert("\n"@.len() == 1 && "\n"@[0] == '\n') by {
                    reveal_strlit("\n");
                }
            }
            assert(j_before + ((ov[k as int] + "\n"@) + spec_join_lines(
                ov.skip(k as int + 1),
            )) =~= joined@ + spec_join_lines(ov.skip(k as int + 1)));
        }
        k += 1;
    }
    proof {
        assert(ov.skip(out@.len() as int) =~= Seq::<Seq<char>>::empty());
        assert(joined@ + Seq::<char>::empty() =~= joined@);
    }
    Some(chars_to_string(&joined))
}

/// A found occurrence lies in range.
pub proof fn lemma_find_sub_in_range(s: Seq<char>, pat: Seq<char>)
    requires
        spec_find_sub(s, pat) is Some,
    ensures
        0 <= spec_find_sub(s, pat)->0,
        spec_find_sub(s, pat)->0 + pat.len() <= s.len(),
    decreases s.len(),
{
    if pat.len() > s.len() {
    } else if s.subrange(0, pat.len() as int) == pat {
    } else if s.len() == 0 {
    } else {
        if spec_find_sub(s.drop_first(), pat) is Some {
            lemma_find_sub_in_range(s.drop_first(), pat);
        }
    }
}

} // verus!
