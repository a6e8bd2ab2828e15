//! The collector's side of a scan: what a device query can fail with, and how
//! the answers of the queries become one snapshot.

use crate::document::{BLANK, LINE_FEED};
use crate::engine::{
    distinct_artifacts, package_models, ArtifactsModel, DeviceArtifacts, Package, PackageModel,
};
use crate::text::{
    bytes_eq, contains, contains_bytes, copy_bytes, copy_list, copy_range, find_first, first_at,
    has_member, is_member, occurs_at, split, split_spec, starts_at, views,
};
use vstd::prelude::*;

verus! {

/// The byte that ends a permission's name in a package dump, `:`.
pub const COLON: u8 = 58;

/// Why a device query gave no answer.
#[derive(Clone, Copy, Debug, PartialEq, Eq, Structural)]
pub enum DeviceQueryError {
    /// The device cannot be reached; trying again may help.
    Unreachable,
    /// The device refused the command.
    Rejected,
}

/// A package with the given identifier is in the list.
pub open spec fn has_package(pkgs: Seq<PackageModel>, id: Seq<u8>) -> bool {
    exists|k: int| 0 <= k < pkgs.len() && (#[trigger] pkgs[k]).id == id
}

/// The first `n` packages without those whose identifier came before: the
/// first record of each identifier, in the order of the list.
pub open spec fn first_packages(pkgs: Seq<PackageModel>, n: int) -> Seq<PackageModel>
    decreases n,
{
    if n <= 0 {
        Seq::empty()
    } else {
        let before = first_packages(pkgs, n - 1);
        if has_package(before, pkgs[n - 1].id) {
            before
        } else {
            before.push(pkgs[n - 1])
        }
    }
}

/// The first `n` names without repetitions, in the order of the list.
pub open spec fn first_names(names: Seq<Seq<u8>>, n: int) -> Seq<Seq<u8>>
    decreases n,
{
    if n <= 0 {
        Seq::empty()
    } else {
        let before = first_names(names, n - 1);
        if has_member(before, names[n - 1]) {
            before
        } else {
            before.push(names[n - 1])
        }
    }
}

/// The snapshot that the answers of the two queries make.
pub open spec fn snapshot_of(pkgs: Seq<PackageModel>, names: Seq<Seq<u8>>) -> ArtifactsModel {
    ArtifactsModel {
        packages: first_packages(pkgs, pkgs.len() as int),
        processes: first_names(names, names.len() as int),
    }
}

fn find_package(pkgs: &Vec<Package>, id: &Vec<u8>) -> (r: bool)
    ensures
        r == has_package(package_models(pkgs@), id@),
{
    let mut i: usize = 0;
    while i < pkgs.len()
        invariant
            i <= pkgs.len(),
            forall|k: int| 0 <= k < i ==> (#[trigger] package_models(pkgs@)[k]).id != id@,
        decreases pkgs.len() - i,
    {
        if bytes_eq(&pkgs[i].id, id) {
            assert(package_models(pkgs@)[i as int].id == id@);
            return true;
        }
        i += 1;
    }
    false
}

/// Keeps the first record of each package identifier.
pub fn unique_packages(pkgs: &Vec<Package>) -> (out: Vec<Package>)
    ensures
        package_models(out@) == first_packages(package_models(pkgs@), pkgs.len() as int),
        forall|i: int, j: int|
            0 <= i < j < out.len() ==> package_models(out@)[i].id != package_models(out@)[j].id,
{
    let mut out: Vec<Package> = Vec::new();
    let mut i: usize = 0;
    proof {
        assert(package_models(out@) =~= first_packages(package_models(pkgs@), 0));
    }
    while i < pkgs.len()
        invariant
            i <= pkgs.len(),
            package_models(out@) == first_packages(package_models(pkgs@), i as int),
            forall|a: int, b: int|
                0 <= a < b < out.len() ==> package_models(out@)[a].id != package_models(
                    out@,
                )[b].id,
        decreases pkgs.len() - i,
    {
        let ghost before = package_models(out@);
        if !find_package(&out, &pkgs[i].id) {
            let p = Package {
                id: copy_bytes(&pkgs[i].id),
                label: copy_bytes(&pkgs[i].label),
                permissions: copy_list(&pkgs[i].permissions),
                installer: copy_bytes(&pkgs[i].installer),
            };
            assert(p@ == package_models(pkgs@)[i as int]);
            out.push(p);
            proof {
                assert(package_models(out@) =~= before.push(package_models(pkgs@)[i as int]));
                assert forall|a: int, b: int| 0 <= a < b < out.len() implies package_models(
                    out@,
                )[a].id != package_models(out@)[b].id by {
                    if b == out.len() - 1 {
                        assert(before[a].id != package_models(pkgs@)[i as int].id);
                    } else {
                        assert(before[a].id != before[b].id);
                    }
                }
            }
        }
        i += 1;
    }
    out
}

/// Keeps the first occurrence of each name.
pub fn unique_names(names: &Vec<Vec<u8>>) -> (out: Vec<Vec<u8>>)
    ensures
        views(out@) == first_names(views(names@), names.len() as int),
        forall|i: int, j: int| 0 <= i < j < out.len() ==> views(out@)[i] != views(out@)[j],
{
    let mut out: Vec<Vec<u8>> = Vec::new();
    let mut i: usize = 0;
    proof {
        assert(views(out@) =~= first_names(views(names@), 0));
    }
    while i < names.len()
        invariant
            i <= names.len(),
            views(out@) == first_names(views(names@), i as int),
            forall|a: int, b: int| 0 <= a < b < out.len() ==> views(out@)[a] != views(out@)[b],
        decreases names.len() - i,
    {
        let ghost before = views(out@);
        if !is_member(&out, &names[i]) {
            out.push(copy_bytes(&names[i]));
            proof {
                assert(views(out@) =~= before.push(views(names@)[i as int]));
                assert forall|a: int, b: int| 0 <= a < b < out.len() implies views(out@)[a]
                    != views(out@)[b] by {
                    if b == out.len() - 1 {
                        assert(before[a] != views(names@)[i as int]);
                    } else {
                        assert(before[a] != before[b]);
                    }
                }
            }
        }
        i += 1;
    }
    out
}

/// Makes the snapshot of a device from the answers of its two queries. A
/// failed query fails the snapshot, the package query first: matching never
/// runs on half an answer. Of records that share a package identifier, and of
/// equal process names, the first is kept.
pub fn assemble(
    packages: Result<Vec<Package>, DeviceQueryError>,
    processes: Result<Vec<Vec<u8>>, DeviceQueryError>,
) -> (r: Result<DeviceArtifacts, DeviceQueryError>)
    ensures
        match packages {
            Err(e) => r == Err::<DeviceArtifacts, DeviceQueryError>(e),
            Ok(pkgs) => match processes {
                Err(e) => r == Err::<DeviceArtifacts, DeviceQueryError>(e),
                Ok(names) => r is Ok && r->Ok_0@ == snapshot_of(
                    package_models(pkgs@),
                    views(names@),
                ) && distinct_artifacts(r->Ok_0@),
            },
        },
{
    match packages {
        Err(e) => Err(e),
        Ok(pkgs) => match processes {
            Err(e) => Err(e),
            Ok(names) => Ok(
                DeviceArtifacts {
                    packages: unique_packages(&pkgs),
                    processes: unique_names(&names),
                },
            ),
        },
    }
}

/// The text after `tag` on a line that begins with `tag` and goes on after it.
pub open spec fn tagged_text(line: Seq<u8>, tag: Seq<u8>) -> Option<Seq<u8>> {
    if occurs_at(line, tag, 0) && tag.len() < line.len() {
        Some(line.subrange(tag.len() as int, line.len() as int))
    } else {
        None
    }
}

/// The tagged texts of the first `n` lines, in order.
pub open spec fn tagged_lines(lines: Seq<Seq<u8>>, tag: Seq<u8>, n: int) -> Seq<Seq<u8>>
    decreases n,
{
    if n <= 0 {
        Seq::empty()
    } else {
        let before = tagged_lines(lines, tag, n - 1);
        match tagged_text(lines[n - 1], tag) {
            Some(t) => before.push(t),
            None => before,
        }
    }
}

/// Reads the answer of a listing command: of every line that begins with
/// `tag`, what follows the tag, where anything does. With an empty tag these
/// are the lines that are not empty.
pub fn read_listing(output: &Vec<u8>, tag: &Vec<u8>) -> (out: Vec<Vec<u8>>)
    ensures
        views(out@) == tagged_lines(
            split_spec(output@, LINE_FEED),
            tag@,
            split_spec(output@, LINE_FEED).len() as int,
        ),
{
    let lines = split(output, LINE_FEED);
    let mut out: Vec<Vec<u8>> = Vec::new();
    let mut i: usize = 0;
    proof {
        assert(views(out@) =~= tagged_lines(views(lines@), tag@, 0));
    }
    while i < lines.len()
        invariant
            i <= lines.len(),
            views(out@) == tagged_lines(views(lines@), tag@, i as int),
        decreases lines.len() - i,
    {
        let ghost before = views(out@);
        let line = &lines[i];
        if starts_at(line, tag, 0) && tag.len() < line.len() {
            out.push(copy_range(line, tag.len(), line.len()));
            proof {
                assert(views(out@) =~= before.push(
                    line@.subrange(tag.len() as int, line.len() as int),
                ));
            }
        }
        i += 1;
    }
    out
}

/// A line without the blanks it begins with.
pub open spec fn skip_blanks(line: Seq<u8>) -> Seq<u8>
    decreases line.len(),
{
    if line.len() > 0 && line[0] == BLANK {
        skip_blanks(line.skip(1))
    } else {
        line
    }
}

/// The text `: granted=true`, which marks a permission that a package holds.
pub open spec fn granted_mark() -> Seq<u8> {
    seq![58u8, 32u8, 103u8, 114u8, 97u8, 110u8, 116u8, 101u8, 100u8, 61u8, 116u8, 114u8, 117u8, 101u8]
}

/// The permission that a line of a package dump grants: the line, without
/// leading blanks, up to its first colon, where the line holds the mark.
pub open spec fn permission_of(line: Seq<u8>) -> Option<Seq<u8>> {
    let text = skip_blanks(line);
    if contains(text, granted_mark()) {
        Some(text.subrange(0, first_at(text, COLON, 0)))
    } else {
        None
    }
}

/// The permissions granted on the first `n` lines, in order.
pub open spec fn granted_on(lines: Seq<Seq<u8>>, n: int) -> Seq<Seq<u8>>
    decreases n,
{
    if n <= 0 {
        Seq::empty()
    } else {
        let before = granted_on(lines, n - 1);
        match permission_of(lines[n - 1]) {
            Some(p) => before.push(p),
            None => before,
        }
    }
}

/// Drops the blanks that a line begins with.
pub fn trim_start(line: &Vec<u8>) -> (out: Vec<u8>)
    ensures
        out@ == skip_blanks(line@),
{
    let mut k: usize = 0;
    proof {
        assert(line@.skip(0) =~= line@);
    }
    while k < line.len() && line[k] == BLANK
        invariant
            k <= line.len(),
            skip_blanks(line@) == skip_blanks(line@.skip(k as int)),
        decreases line.len() - k,
    {
        proof {
            assert(line@.skip(k as int).skip(1) =~= line@.skip(k + 1));
        }
        k += 1;
    }
    let out = copy_range(line, k, line.len());
    proof {
        assert(line@.subrange(k as int, line.len() as int) =~= line@.skip(k as int));
    }
    out
}

/// Reads the permissions that a package dump reports as granted.
pub fn granted_permissions(dump: &Vec<u8>) -> (out: Vec<Vec<u8>>)
    ensures
        views(out@) == granted_on(split_spec(dump@, LINE_FEED), split_spec(dump@, LINE_FEED).len() as int),
{
    let lines = split(dump, LINE_FEED);
    let mark: Vec<u8> = vec![58u8, 32u8, 103u8, 114u8, 97u8, 110u8, 116u8, 101u8, 100u8, 61u8, 116u8, 114u8, 117u8, 101u8];
    let mut out: Vec<Vec<u8>> = Vec::new();
    let mut i: usize = 0;
    proof {
        assert(views(out@) =~= granted_on(views(lines@), 0));
    }
    while i < lines.len()
        invariant
            i <= lines.len(),
            mark@ == granted_mark(),
            views(out@) == granted_on(views(lines@), i as int),
        decreases lines.len() - i,
    {
        let ghost before = views(out@);
        let text = trim_start(&lines[i]);
        if contains_bytes(&text, &mark) {
            let k = find_first(&text, COLON);
            out.push(copy_range(&text, 0, k));
            proof {
                assert(views(out@) =~= before.push(text@.subrange(0, k as int)));
            }
        }
        i += 1;
    }
    out
}

} // verus!
