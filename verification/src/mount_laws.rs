//! Which file a path leads to, with mounts and without.

use vstd::prelude::*;

use crate::config::MountModel;
use crate::handler_laws::{all_names, law_placing_stays_under_the_base};
use crate::http::{
    bare_route, best_mount, covers, law_the_longest_mount_wins, mount_base, named, placed_under,
    resolved,
};
use crate::path::{components, join_path};
use crate::path_laws::{
    is_name, law_join_adds_a_component, law_separators_and_dots_name_nothing,
    law_which_paths_stand_alone,
};
use crate::site_laws::{lemma_joined_components, lemma_named_all};
use crate::text::{join, strip_leading, strip_trailing};

verus! {

/* -------------------------------------------------------------------- covering */

/// Whether a mount is written for a route: the route, with any number of slashes
/// behind it.
pub open spec fn is_mounted_at(mount: MountModel, route: Seq<char>) -> bool {
    &&& route.len() > 0
    &&& route.last() != '/'
    &&& mount.route.len() >= route.len()
    &&& mount.route.take(route.len() as int) == route
    &&& forall|i: int| route.len() <= i < mount.route.len() ==> #[trigger] mount.route[i] == '/'
}

proof fn lemma_strip_slashes(s: Seq<char>, n: int)
    requires
        0 <= n <= s.len(),
        n > 0 ==> s[n - 1] != '/',
        forall|i: int| n <= i < s.len() ==> #[trigger] s[i] == '/',
    ensures
        strip_trailing(s, '/') == s.take(n),
    decreases s.len(),
{
    if s.len() > n {
        assert(s[s.len() - 1] == '/');
        let front = s.drop_last();
        assert forall|i: int| n <= i < front.len() implies #[trigger] front[i] == '/' by {
            assert(front[i] == s[i]);
        }
        lemma_strip_slashes(front, n);
        assert(front.take(n) =~= s.take(n));
    } else {
        assert(s.take(n) =~= s);
    }
}

/// A mount covers its route and everything below it, however deep, and nothing
/// else.
pub proof fn law_a_mount_covers_its_route_and_all_below(
    mount: MountModel,
    route: Seq<char>,
    path: Seq<char>,
)
    requires
        is_mounted_at(mount, route),
    ensures
        bare_route(mount) == route,
        covers(mount, path) == (path == route || exists|rest: Seq<char>|
            path == #[trigger] (route + seq!['/'] + rest)),
{
    let n = route.len() as int;
    lemma_strip_slashes(mount.route, n);
    if covers(mount, path) {
        assert(path.subrange(0, n) == route);
        if path.len() == n {
            assert(path =~= route);
        } else {
            let rest = path.skip(n + 1);
            assert(path =~= route + seq!['/'] + rest);
        }
    }
    if path == route {
        assert(path.subrange(0, n) =~= route);
    }
    if exists|rest: Seq<char>| path == #[trigger] (route + seq!['/'] + rest) {
        let rest = choose|rest: Seq<char>| path == #[trigger] (route + seq!['/'] + rest);
        assert(path.subrange(0, n) =~= route);
        assert(path[n] == '/');
    }
}

/// A mount whose route is nothing but slashes covers nothing.
pub proof fn law_an_empty_route_covers_nothing(mount: MountModel, path: Seq<char>)
    requires
        forall|i: int| 0 <= i < mount.route.len() ==> #[trigger] mount.route[i] == '/',
    ensures
        !covers(mount, path),
{
    lemma_strip_slashes(mount.route, 0);
}

/* -------------------------------------------------------------------- resolving */

/// The path that the given names make.
pub open spec fn path_of(parts: Seq<Seq<char>>) -> Seq<char> {
    join(parts, seq!['/'])
}

proof fn lemma_under(base: Seq<char>, parts: Seq<Seq<char>>, slashed: Seq<char>)
    requires
        all_names(parts),
        slashed == seq!['/'] + path_of(parts) || slashed == path_of(parts),
    ensures
        components(placed_under(base, slashed)) == components(base) + parts,
{
    lemma_joined_components(parts);
    lemma_named_all(parts);
    let inner = path_of(parts);
    if parts.len() == 0 {
        assert(inner =~= Seq::<char>::empty());
    }
    assert(strip_leading(inner, '/') == inner);
    assert((seq!['/'] + inner).skip(1) =~= inner);
    law_placing_stays_under_the_base(base, slashed);
}

/// A path below a route leads to the file of that name below the mounted
/// directory, as long as no other mount covers the path more closely.
pub proof fn law_mounted_paths_lead_below_the_mounted_directory(
    list: Seq<MountModel>,
    k: int,
    route: Seq<char>,
    parts: Seq<Seq<char>>,
    root: Seq<char>,
    workspace: Seq<char>,
    drives: bool,
)
    requires
        0 <= k < list.len(),
        is_mounted_at(list[k], route),
        all_names(parts),
        forall|j: int|
            0 <= j < list.len() && j != k && covers(
                #[trigger] list[j],
                route + seq!['/'] + path_of(parts),
            ) ==> bare_route(list[j]).len() < route.len(),
    ensures
        components(
            resolved(route + seq!['/'] + path_of(parts), list, root, workspace, drives),
        ) == components(mount_base(workspace, list[k], drives)) + parts,
{
    let path = route + seq!['/'] + path_of(parts);
    law_a_mount_covers_its_route_and_all_below(list[k], route, path);
    assert(covers(list[k], path));
    law_the_longest_mount_wins(list, path, list.len() as int);
    let best = best_mount(list, path, list.len() as int)->0;
    if best != k {
        assert(bare_route(list[k]).len() <= bare_route(list[best]).len());
        assert(covers(list[best], path));
    }
    let rest = path.skip(route.len() as int);
    assert(rest =~= seq!['/'] + path_of(parts));
    lemma_under(mount_base(workspace, list[k], drives), parts, rest);
}

/// A path that no mount covers leads to the file of that name below the
/// document root.
pub proof fn law_other_paths_lead_below_the_root(
    list: Seq<MountModel>,
    parts: Seq<Seq<char>>,
    root: Seq<char>,
    workspace: Seq<char>,
    drives: bool,
)
    requires
        all_names(parts),
        forall|j: int|
            0 <= j < list.len() ==> !covers(#[trigger] list[j], seq!['/'] + path_of(parts)),
    ensures
        components(resolved(seq!['/'] + path_of(parts), list, root, workspace, drives))
            == components(root) + parts,
{
    let path = seq!['/'] + path_of(parts);
    law_the_longest_mount_wins(list, path, list.len() as int);
    if let Some(best) = best_mount(list, path, list.len() as int) {
        assert(covers(list[best], path));
    }
    lemma_joined_components(parts);
    let inner = path_of(parts);
    if parts.len() == 0 {
        assert(inner =~= Seq::<char>::empty());
    }
    assert(path.skip(1) =~= inner);
    assert(strip_leading(inner, '/') == inner);
    assert(strip_leading(path, '/') == inner);
    lemma_under(root, parts, inner);
}

/// Joining a path of names onto a base adds the names to the components.
pub proof fn law_joining_adds_all_names(base: Seq<char>, parts: Seq<Seq<char>>)
    requires
        all_names(parts),
        parts.len() > 0,
    ensures
        components(join_path(base, path_of(parts))) == components(base) + parts,
        join_path(base, path_of(parts)).last() != '/',
        join_path(base, path_of(parts)).len() > 0,
    decreases parts.len(),
{
    let sep = seq!['/'];
    let last = parts[parts.len() - 1];
    assert(is_name(last));
    assert(last[0] != '/' && last[last.len() - 1] != '/');
    lemma_joined_components(parts);
    if parts.len() == 1 {
        assert(path_of(parts) =~= last);
        law_join_adds_a_component(base, last);
        assert(components(base).push(last) =~= components(base) + parts);
    } else {
        let front = parts.drop_last();
        assert forall|k: int| 0 <= k < front.len() implies is_name(#[trigger] front[k]) by {
            assert(front[k] == parts[k]);
        }
        law_joining_adds_all_names(base, front);
        lemma_joined_components(front);
        let before = join_path(base, path_of(front));
        law_join_adds_a_component(before, last);
        assert(path_of(parts) =~= path_of(front) + sep + last);
        assert(join_path(base, path_of(parts)) =~= before.push('/') + last);
        assert(join_path(before, last) =~= before.push('/') + last);
        assert((components(base) + front).push(last) =~= components(base) + parts);
    }
}

/// A mounted directory is the one that the mount names: as it stands where it is
/// absolute, else below the workspace.
pub proof fn law_mounted_directories_are_found(
    workspace: Seq<char>,
    mount: MountModel,
    parts: Seq<Seq<char>>,
    drives: bool,
)
    requires
        all_names(parts),
        parts.len() > 0,
    ensures
        mount.path == seq!['/'] + path_of(parts) ==> components(
            mount_base(workspace, mount, drives),
        ) == components(mount.path),
        mount.path == path_of(parts) && !drives ==> components(
            mount_base(workspace, mount, drives),
        ) == components(workspace) + parts,
{
    lemma_joined_components(parts);
    law_joining_adds_all_names(workspace, parts);
}

/// A mount's directory stands alone where it begins with a slash or, where there
/// are drives, with a letter, a colon and a slash; else it is joined onto the
/// workspace.
pub proof fn law_mounted_directories_are_joined_on(
    workspace: Seq<char>,
    mount: MountModel,
    drives: bool,
)
    ensures
        ({
            let p = mount.path;
            let alone = p.len() > 0 && p[0] == '/' || drives && p.len() > 2 && ('a' <= p[0] <= 'z'
                || 'A' <= p[0] <= 'Z') && p[1] == ':' && p[2] == '/';
            mount_base(workspace, mount, drives) == if alone {
                p
            } else {
                join_path(workspace, p)
            }
        }),
{
    law_which_paths_stand_alone(mount.path, drives);
}

/// Of the parts of a path the names are kept, in order, and what names nothing is
/// left out.
pub proof fn law_names_are_kept_in_order(
    a: Seq<Seq<char>>,
    part: Seq<char>,
    b: Seq<Seq<char>>,
)
    ensures
        named(Seq::<Seq<char>>::empty()) == Seq::<Seq<char>>::empty(),
        named(a + seq![part] + b) == named(a) + (if part == seq!['/'] || part == seq!['.'] || part
            == seq!['.', '.'] {
            Seq::<Seq<char>>::empty()
        } else {
            seq![part]
        }) + named(b),
    decreases b.len(),
{
    let all = a + seq![part] + b;
    let own = if part == seq!['/'] || part == seq!['.'] || part == seq!['.', '.'] {
        Seq::<Seq<char>>::empty()
    } else {
        seq![part]
    };
    if b.len() == 0 {
        assert(all.drop_last() =~= a);
        assert(all.last() == part);
    } else {
        law_names_are_kept_in_order(a, part, b.drop_last());
        assert(all.drop_last() =~= a + seq![part] + b.drop_last());
        assert(all.last() == b.last());
    }
    assert(named(all) =~= named(a) + own + named(b));
}

proof fn lemma_same_mount(list: Seq<MountModel>, path: Seq<char>, upto: int)
    requires
        path.len() > 0,
        path.last() != '/',
        0 <= upto <= list.len(),
    ensures
        best_mount(list, path.push('/'), upto) == best_mount(list, path, upto),
    decreases upto,
{
    if upto > 0 {
        lemma_same_mount(list, path, upto - 1);
        let mount = list[upto - 1];
        let route = bare_route(mount);
        let n = route.len() as int;
        let longer = path.push('/');
        lemma_no_slash_left(mount.route);
        if n <= path.len() {
            assert(longer.subrange(0, n) =~= path.subrange(0, n));
        } else if n == longer.len() {
            assert(longer.subrange(0, n) =~= longer);
        }
        assert(covers(mount, longer) == covers(mount, path));
    }
}

proof fn lemma_no_slash_left(s: Seq<char>)
    ensures
        strip_trailing(s, '/').len() > 0 ==> strip_trailing(s, '/').last() != '/',
    decreases s.len(),
{
    if s.len() > 0 && s.last() == '/' {
        lemma_no_slash_left(s.drop_last());
    }
}

/// A slash at the end of a path leads nowhere else.
pub proof fn law_a_slash_at_the_end_changes_nothing(
    path: Seq<char>,
    list: Seq<MountModel>,
    root: Seq<char>,
    workspace: Seq<char>,
    drives: bool,
)
    requires
        path.len() > 0,
        path.last() != '/',
    ensures
        components(resolved(path.push('/'), list, root, workspace, drives)) == components(
            resolved(path, list, root, workspace, drives),
        ),
{
    lemma_same_mount(list, path, list.len() as int);
    law_the_longest_mount_wins(list, path, list.len() as int);
    match best_mount(list, path, list.len() as int) {
        Some(best) => {
            let n = bare_route(list[best]).len() as int;
            let rest = path.skip(n);
            assert(path.push('/').skip(n) =~= rest.push('/'));
            lemma_same_place(mount_base(workspace, list[best], drives), rest);
        },
        None => {
            lemma_slash_behind(path);
            let bare = strip_leading(path, '/');
            if bare.len() > 0 {
                lemma_same_place(root, bare);
            } else {
                lemma_same_place(root, path);
                lemma_all_slashes(path);
            }
        },
    }
}

proof fn lemma_all_slashes(s: Seq<char>)
    requires
        strip_leading(s, '/').len() == 0,
    ensures
        s.len() == 0 || s.last() == '/',
    decreases s.len(),
{
    if s.len() > 1 {
        lemma_all_slashes(s.skip(1));
        assert(s.skip(1).last() == s.last());
    }
}

proof fn lemma_slash_behind(s: Seq<char>)
    ensures
        strip_leading(s.push('/'), '/') == if strip_leading(s, '/').len() == 0 {
            Seq::<char>::empty()
        } else {
            strip_leading(s, '/').push('/')
        },
    decreases s.len(),
{
    let longer = s.push('/');
    if s.len() == 0 {
        assert(longer.skip(1) =~= Seq::<char>::empty());
        assert(strip_leading(longer.skip(1), '/') =~= Seq::<char>::empty());
    } else if s[0] == '/' {
        lemma_slash_behind(s.skip(1));
        assert(longer.skip(1) =~= s.skip(1).push('/'));
    }
}

proof fn lemma_same_place(base: Seq<char>, rest: Seq<char>)
    ensures
        components(placed_under(base, rest.push('/'))) == components(
            placed_under(base, rest),
        ),
{
    lemma_slash_behind(rest);
    let bare = strip_leading(rest, '/');
    law_placing_stays_under_the_base(base, rest);
    law_placing_stays_under_the_base(base, rest.push('/'));
    if bare.len() > 0 {
        law_separators_and_dots_name_nothing(bare);
        assert(bare + seq!['/'] =~= bare.push('/'));
    } else {
        assert(bare =~= Seq::<char>::empty());
    }
}

} // verus!
