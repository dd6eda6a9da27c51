//! Whether a newer release is out, and what is said about it.
use vstd::prelude::*;

use crate::search::find_chars;
use crate::text::chars_of;

verus! {

/// Whether `self_update` takes one version for a bump of another, or its
/// complaint about one that is no version.
pub uninterp spec fn is_bump(current: Seq<char>, other: Seq<char>) -> Result<bool, Seq<char>>;

/// `self_update::version::bump_is_greater` is a function of the two versions;
/// its error is handed on as text.
#[verifier::external_body]
fn bump_is_greater(current: &str, other: &str) -> (res: Result<bool, String>)
    ensures
        match res {
            Ok(newer) => is_bump(current@, other@) == Ok::<bool, Seq<char>>(newer),
            Err(message) => is_bump(current@, other@) == Err::<bool, Seq<char>>(message@),
        },
{
    self_update::version::bump_is_greater(current, other).map_err(|err| err.to_string())
}

/// The text holds a part.
pub open spec fn contains(text: Seq<char>, part: Seq<char>) -> bool {
    crate::search::find(text, part) is Some
}

fn has_part(text: &[char], part: &str) -> (res: bool)
    ensures
        res == contains(text@, part@),
{
    find_chars(text, chars_of(part).as_slice()).is_some()
}

/// The executable lives under Cargo's `target/debug` or `target/release`.
pub fn is_cargo_target_path(path: &str) -> (res: bool)
    ensures
        res == (contains(path@, "/target/debug/"@) || contains(path@, "/target/release/"@)
            || contains(path@, "\\target\\debug\\"@) || contains(path@, "\\target\\release\\"@)),
{
    let chars: Vec<char> = chars_of(path);
    let text = chars.as_slice();
    has_part(text, "/target/debug/") || has_part(text, "/target/release/") || has_part(
        text,
        "\\target\\debug\\",
    ) || has_part(text, "\\target\\release\\")
}

/// The name of a newer release, `v` and its version.
pub open spec fn tag(version: Seq<char>) -> Seq<char> {
    "v"@ + version
}

/// The name of the latest release, where it is newer.
pub fn newer_tag(is_newer: bool, latest: &str) -> (res: Option<String>)
    ensures
        crate::text::opt_text(res) == (if is_newer {
            Some(tag(latest@))
        } else {
            None
        }),
{
    if is_newer {
        let mut out: String = String::new();
        out.append("v");
        out.append(latest);
        assert(out@ =~= tag(latest@));
        Some(out)
    } else {
        None
    }
}

/// The name of the latest release, where it is newer than the current version.
pub fn update_available(current: &str, latest: &str) -> (res: Result<Option<String>, String>)
    ensures
        match is_bump(current@, latest@) {
            Ok(newer) => res matches Ok(found) && crate::text::opt_text(found) == (if newer {
                Some(tag(latest@))
            } else {
                None
            }),
            Err(message) => res matches Err(e) && e@ == message,
        },
{
    match bump_is_greater(current, latest) {
        Ok(newer) => Ok(newer_tag(newer, latest)),
        Err(message) => Err(message),
    }
}

/// Told while a tunnel runs.
pub fn update_notice(version: &str) -> (out: String)
    ensures
        out@ == "A new Vyse release is available ("@ + version@ + "). Run: vyse update"@,
{
    let mut out: String = String::new();
    out.append("A new Vyse release is available (");
    out.append(version);
    out.append("). Run: vyse update");
    assert(out@ =~= "A new Vyse release is available ("@ + version@ + "). Run: vyse update"@);
    out
}

/// Told where there is nothing newer.
pub open spec fn up_to_date_text(current: Seq<char>) -> Seq<char> {
    "Vyse is up to date (v"@ + current + ")."@
}

pub fn up_to_date(current: &str) -> (out: String)
    ensures
        out@ == up_to_date_text(current@),
{
    let mut out: String = String::new();
    out.append("Vyse is up to date (v");
    out.append(current);
    out.append(").");
    assert(out@ =~= up_to_date_text(current@));
    out
}

/// What a look for updates prints.
pub fn check_status(found: Option<String>, current: &str) -> (out: String)
    ensures
        out@ == (match found {
            Some(version) => "A new Vyse release is available ("@ + version@
                + ").\nCurrent version: v"@ + current@ + "\nRun: vyse update"@,
            None => up_to_date_text(current@),
        }),
{
    match found {
        Some(version) => {
            let mut out: String = String::new();
            out.append("A new Vyse release is available (");
            out.append(version.as_str());
            out.append(").\nCurrent version: v");
            out.append(current);
            out.append("\nRun: vyse update");
            assert(out@ =~= "A new Vyse release is available ("@ + version@
                + ").\nCurrent version: v"@ + current@ + "\nRun: vyse update"@);
            out
        },
        None => up_to_date(current),
    }
}

/// What an update prints: the version that is installed now, where one was
/// installed.
pub fn update_status(installed: Option<String>, current: &str) -> (out: String)
    ensures
        out@ == (match installed {
            Some(version) => "Updated Vyse to "@ + version@ + "."@,
            None => up_to_date_text(current@),
        }),
{
    match installed {
        Some(version) => {
            let mut out: String = String::new();
            out.append("Updated Vyse to ");
            out.append(version.as_str());
            out.append(".");
            assert(out@ =~= "Updated Vyse to "@ + version@ + "."@);
            out
        },
        None => up_to_date(current),
    }
}

/// What is said where the running program is a Cargo build.
pub fn cargo_build_message(path: &str) -> (out: String)
    ensures
        out@ == "running from a Cargo build ("@ + path@
            + ") — install the release binary (~/.vyse/bin/vyse or on PATH) and run `vyse update` there"@,
{
    let mut out: String = String::new();
    out.append("running from a Cargo build (");
    out.append(path);
    out.append(
        ") — install the release binary (~/.vyse/bin/vyse or on PATH) and run `vyse update` there",
    );
    assert(out@ =~= "running from a Cargo build ("@ + path@
        + ") — install the release binary (~/.vyse/bin/vyse or on PATH) and run `vyse update` there"@);
    out
}

/// Text contains a part that stands anywhere in it, and no other.
pub proof fn law_parts_of_text(front: Seq<char>, part: Seq<char>, back: Seq<char>, text: Seq<char>)
    ensures
        contains(front + part + back, part),
        contains(text, part) <==> exists|i: int|
            0 <= i <= text.len() - part.len() && #[trigger] text.subrange(i, i + part.len())
                == part,
{
    let all = front + part + back;
    let k = front.len() as int;
    assert(all.subrange(k, k + part.len()) =~= part);
    assert(crate::search::occurs(all, part, k));
    crate::search::lemma_find(all, part);
    crate::search::lemma_find(text, part);
    if exists|i: int|
        0 <= i <= text.len() - part.len() && #[trigger] text.subrange(i, i + part.len()) == part {
        let i = choose|i: int|
            0 <= i <= text.len() - part.len() && #[trigger] text.subrange(i, i + part.len())
                == part;
        assert(crate::search::occurs(text, part, i));
    }
}

/// How releases are named.
pub proof fn law_release_names(version: Seq<char>)
    ensures
        tag(version).len() == version.len() + 1,
        tag(version)[0] == 'v',
        tag(version).skip(1) == version,
        up_to_date_text(version) == "Vyse is up to date (v"@ + version + ")."@,
{
    reveal_strlit("v");
    assert(tag(version).skip(1) =~= version);
}

/// A release is offered where it is newer than the current version, by its name,
/// and what is said of it.
pub proof fn law_offered_releases(
    is_newer: bool,
    latest: &str,
    res: Option<String>,
    found: Option<String>,
    current: &str,
    status: String,
    done: String,
)
    requires
        call_ensures(newer_tag, (is_newer, latest), res),
        call_ensures(check_status, (found, current), status),
        call_ensures(update_status, (found, current), done),
    ensures
        res is Some <==> is_newer,
        res matches Some(name) ==> name@ == seq!['v'] + latest@,
        found matches Some(version) ==> status@ == "A new Vyse release is available ("@ + version@
            + ").\nCurrent version: v"@ + current@ + "\nRun: vyse update"@ && done@
            == "Updated Vyse to "@ + version@ + "."@,
        found is None ==> status@ == "Vyse is up to date (v"@ + current@ + ")."@ && done@
            == "Vyse is up to date (v"@ + current@ + ")."@,
{
    reveal_strlit("v");
    assert(tag(latest@) =~= seq!['v'] + latest@);
}

/// A program runs from a Cargo build where a `target` directory and in it `debug`
/// or `release` stand on its path, with either kind of slash.
pub proof fn law_cargo_builds(front: Seq<char>, back: Seq<char>, path: &str, res: bool)
    requires
        call_ensures(is_cargo_target_path, (path,), res),
    ensures
        path@ == front + "/target/debug/"@ + back ==> res,
        path@ == front + "/target/release/"@ + back ==> res,
        path@ == front + "\\target\\debug\\"@ + back ==> res,
        path@ == front + "\\target\\release\\"@ + back ==> res,
        (forall|i: int| 0 <= i < path@.len() ==> path@[i] != '/' && path@[i] != '\\') ==> !res,
{
    law_parts_of_text(front, "/target/debug/"@, back, path@);
    law_parts_of_text(front, "/target/release/"@, back, path@);
    law_parts_of_text(front, "\\target\\debug\\"@, back, path@);
    law_parts_of_text(front, "\\target\\release\\"@, back, path@);
    reveal_strlit("/target/debug/");
    reveal_strlit("/target/release/");
    reveal_strlit("\\target\\debug\\");
    reveal_strlit("\\target\\release\\");
    if forall|i: int| 0 <= i < path@.len() ==> path@[i] != '/' && path@[i] != '\\' {
        lemma_not_part(path@, "/target/debug/"@);
        lemma_not_part(path@, "/target/release/"@);
        lemma_not_part(path@, "\\target\\debug\\"@);
        lemma_not_part(path@, "\\target\\release\\"@);
    }
}

proof fn lemma_not_part(text: Seq<char>, part: Seq<char>)
    requires
        part.len() > 0,
        forall|i: int| 0 <= i < text.len() ==> text[i] != part[0],
    ensures
        !contains(text, part),
{
    crate::search::lemma_find(text, part);
    if contains(text, part) {
        let k = crate::search::find(text, part)->Some_0;
        assert(text.subrange(k, k + part.len())[0] == text[k]);
    }
}

} // verus!
