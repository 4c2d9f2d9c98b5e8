//! The spawn plan: which body each link becomes, what it carries, and which
//! joint attaches it to which earlier body.
use vstd::prelude::*;
use crate::model::{
    check_links_known, find_link, find_root, lemma_link_named_found, link_named, links_known,
    root_link, JointKind, RobotModel,
};
use crate::text::{replace_literal, replaced};

verus! {

/// The constraint a joint becomes: a single rotational axis, or none at all.
#[derive(Clone, Copy, PartialEq, Eq, Debug, Structural)]
pub enum ConstraintKind {
    Revolute,
    Rigid,
}

/// Revolute and continuous joints rotate about their axis; every other kind
/// is held rigid.
pub open spec fn constraint_of(kind: JointKind) -> ConstraintKind {
    match kind {
        JointKind::Revolute | JointKind::Continuous => ConstraintKind::Revolute,
        _ => ConstraintKind::Rigid,
    }
}

pub fn classify_joint(kind: JointKind) -> (r: ConstraintKind)
    ensures
        r == constraint_of(kind),
{
    match kind {
        JointKind::Revolute | JointKind::Continuous => ConstraintKind::Revolute,
        _ => ConstraintKind::Rigid,
    }
}

/// The mass a body is given.
#[derive(Clone, Copy, PartialEq, Eq, Debug, Structural)]
pub enum MassChoice {
    /// The link's declared mass (binary64 bits).
    Declared(u64),
    /// The loader's default mass.
    Default,
}

/// A binary64 bit pattern denotes a number greater than zero: sign bit
/// clear, not zero, and not a NaN (the largest such pattern is +infinity).
pub open spec fn is_positive_f64(bits: u64) -> bool {
    0 < bits && bits <= 0x7ff0_0000_0000_0000
}

pub open spec fn mass_choice(bits: u64) -> MassChoice {
    if is_positive_f64(bits) {
        MassChoice::Declared(bits)
    } else {
        MassChoice::Default
    }
}

/// A declared mass above zero is kept exactly; any other gets the default.
pub fn choose_mass(bits: u64) -> (r: MassChoice)
    ensures
        r == mass_choice(bits),
        is_positive_f64(bits) ==> r == MassChoice::Declared(bits),
        !is_positive_f64(bits) ==> r == MassChoice::Default,
{
    if 0 < bits && bits <= 0x7ff0_0000_0000_0000 {
        MassChoice::Declared(bits)
    } else {
        MassChoice::Default
    }
}

pub open spec fn package_scheme() -> Seq<char> {
    seq!['p', 'a', 'c', 'k', 'a', 'g', 'e', ':', '/', '/']
}

pub open spec fn models_dir() -> Seq<char> {
    seq!['m', 'o', 'd', 'e', 'l', 's', '/']
}

/// A mesh reference as an asset path: the package scheme becomes the local
/// models directory, and backslashes become slashes.
pub open spec fn asset_path(filename: Seq<char>) -> Seq<char> {
    replaced(replaced(filename, package_scheme(), models_dir()), seq!['\\'], seq!['/'])
}

pub fn mesh_asset_path(filename: &Vec<char>) -> (r: Vec<char>)
    ensures
        r@ == asset_path(filename@),
{
    let scheme = vec!['p', 'a', 'c', 'k', 'a', 'g', 'e', ':', '/', '/'];
    assert(scheme@ =~= package_scheme());
    let dir = vec!['m', 'o', 'd', 'e', 'l', 's', '/'];
    assert(dir@ =~= models_dir());
    let local = replace_literal(filename, &scheme, &dir);
    let backslash = vec!['\\'];
    let slash = vec!['/'];
    assert(backslash@ =~= seq!['\\']);
    assert(slash@ =~= seq!['/']);
    replace_literal(&local, &backslash, &slash)
}

/// A visual element to attach: its index among the link's visuals and the
/// asset path of its mesh.
pub struct VisualPlan {
    pub visual: usize,
    pub asset_path: Vec<char>,
}

pub open spec fn visual_view(v: VisualPlan) -> (int, Seq<char>) {
    (v.visual as int, v.asset_path@)
}

pub open spec fn visuals_view(vs: Seq<VisualPlan>) -> Seq<(int, Seq<char>)> {
    vs.map_values(|v: VisualPlan| visual_view(v))
}

/// The mesh visuals of a link from `i` on, with their asset paths.
pub open spec fn mesh_visuals_from(vs: Seq<Option<Vec<char>>>, i: int) -> Seq<(int, Seq<char>)>
    decreases vs.len() - i,
{
    if i < 0 || i >= vs.len() {
        Seq::empty()
    } else {
        match vs[i] {
            Some(f) => seq![(i, asset_path(f@))] + mesh_visuals_from(vs, i + 1),
            None => mesh_visuals_from(vs, i + 1),
        }
    }
}

pub open spec fn mesh_visuals(vs: Seq<Option<Vec<char>>>) -> Seq<(int, Seq<char>)> {
    mesh_visuals_from(vs, 0)
}

/// The visual whose mesh shapes the collider: the last mesh visual, if any.
pub open spec fn collider_of(mv: Seq<(int, Seq<char>)>) -> Option<int> {
    if mv.len() > 0 {
        Some(mv.last().0)
    } else {
        None
    }
}

pub open spec fn opt_int(o: Option<usize>) -> Option<int> {
    match o {
        Some(v) => Some(v as int),
        None => None,
    }
}

/// How a body hangs from an earlier body of the plan.
#[derive(Clone, Copy, PartialEq, Eq, Debug, Structural)]
pub struct Attachment {
    /// Index of the parent body in the plan.
    pub parent: usize,
    /// Index of the joint in the model.
    pub joint: usize,
    pub kind: ConstraintKind,
}

/// One body of the kinematic tree.
pub struct BodyPlan {
    /// Index of the link in the model.
    pub link: usize,
    /// `None` for the root body.
    pub attachment: Option<Attachment>,
    pub mass: MassChoice,
    pub visuals: Vec<VisualPlan>,
    /// The visual whose mesh the pending collider waits for; `None` where
    /// the link has no mesh, so that no collider is pending.
    pub collider: Option<usize>,
}

/// `b` carries what its link declares: mass, mesh visuals, collider source.
pub open spec fn body_fits(m: RobotModel, b: BodyPlan) -> bool {
    &&& b.link < m.links@.len()
    &&& b.mass == mass_choice(m.links@[b.link as int].mass_bits)
    &&& visuals_view(b.visuals@) == mesh_visuals(m.links@[b.link as int].visuals@)
    &&& opt_int(b.collider) == collider_of(mesh_visuals(m.links@[b.link as int].visuals@))
}

/// The body planned for `link`, hanging as `attachment` says.
pub fn plan_body(m: &RobotModel, link: usize, attachment: Option<Attachment>) -> (b: BodyPlan)
    requires
        link < m.links@.len(),
    ensures
        body_fits(*m, b),
        b.link == link,
        b.attachment == attachment,
{
    let vs = &m.links[link].visuals;
    let mut visuals: Vec<VisualPlan> = Vec::new();
    let mut collider: Option<usize> = None;
    let mut i: usize = 0;
    while i < vs.len()
        invariant
            i <= vs@.len(),
            vs == &m.links@[link as int].visuals,
            visuals_view(visuals@) + mesh_visuals_from(vs@, i as int) == mesh_visuals(vs@),
            opt_int(collider) == collider_of(visuals_view(visuals@)),
        decreases vs.len() - i,
    {
        match &vs[i] {
            Some(f) => {
                let path = mesh_asset_path(f);
                let ghost old_view = visuals_view(visuals@);
                visuals.push(VisualPlan { visual: i, asset_path: path });
                proof {
                    assert(visuals_view(visuals@) =~= old_view + seq![(i as int, asset_path(f@))]);
                    assert(old_view + (seq![(i as int, asset_path(f@))] + mesh_visuals_from(
                        vs@,
                        i + 1,
                    )) =~= visuals_view(visuals@) + mesh_visuals_from(vs@, i + 1));
                }
                collider = Some(i);
            },
            None => {},
        }
        i = i + 1;
    }
    proof {
        assert(visuals_view(visuals@) + Seq::empty() =~= visuals_view(visuals@));
    }
    let mass = choose_mass(m.links[link].mass_bits);
    BodyPlan { link, attachment, mass, visuals, collider }
}


/// Why a model cannot be built.
#[derive(Clone, Copy, PartialEq, Eq, Debug, Structural)]
pub enum BuildError {
    /// A joint names a link that the model does not hold.
    UnknownLink,
    /// Every link is some joint's child.
    NoRootLink,
}

/// Body `k` of `plan` hangs from an earlier body by a joint from that body's
/// link to its own, with the constraint the joint's kind calls for; only the
/// first body, the root, hangs from nothing.
pub open spec fn attachment_fits(m: RobotModel, plan: Seq<BodyPlan>, k: int) -> bool {
    match plan[k].attachment {
        Some(a) => {
            &&& k > 0
            &&& a.parent < k
            &&& a.joint < m.joints@.len()
            &&& m.joints@[a.joint as int].parent@ == m.links@[plan[a.parent as int].link as int].name@
            &&& link_named(m, m.joints@[a.joint as int].child@) == Some(plan[k].link as int)
            &&& a.kind == constraint_of(m.joints@[a.joint as int].kind)
        },
        None => k == 0,
    }
}

/// Some body of `plan` is made from link `l`.
pub open spec fn has_body(plan: Seq<BodyPlan>, l: int) -> bool {
    exists|q: int| 0 <= q < plan.len() && #[trigger] plan[q].link == l
}

/// The link that joint `j` leads to has a body in `plan`.
pub open spec fn joint_child_planned(m: RobotModel, plan: Seq<BodyPlan>, j: int) -> bool {
    match link_named(m, m.joints@[j].child@) {
        Some(c) => has_body(plan, c),
        None => false,
    }
}

/// Each joint that hangs from the link of body `p` leads to a link that has a body.
pub open spec fn children_planned(m: RobotModel, plan: Seq<BodyPlan>, p: int) -> bool {
    forall|j: int|
        0 <= j < m.joints@.len() && #[trigger] m.joints@[j].parent@ == m.links@[plan[p].link as int].name@
            ==> joint_child_planned(m, plan, j)
}

/// `plan` is the kinematic tree of `m`: it starts at the root link, each
/// body carries what its link declares and hangs from an earlier body by a
/// joint, no link has two bodies, and every link that a joint hangs from a
/// planned link is planned too.
pub open spec fn plan_valid(m: RobotModel, plan: Seq<BodyPlan>) -> bool {
    &&& plan.len() > 0
    &&& root_link(m) matches Some(r) && link_named(m, m.links@[r].name@) == Some(plan[0].link as int)
    &&& forall|k: int| 0 <= k < plan.len() ==> body_fits(m, #[trigger] plan[k])
    &&& forall|k: int| 0 <= k < plan.len() ==> #[trigger] attachment_fits(m, plan, k)
    &&& forall|k1: int, k2: int|
        0 <= k1 < k2 < plan.len() ==> (#[trigger] plan[k1]).link != (#[trigger] plan[k2]).link
    &&& forall|p: int| 0 <= p < plan.len() ==> #[trigger] children_planned(m, plan, p)
}

/// Plans the kinematic tree of `m`, from its root link down.
pub fn plan_tree(m: &RobotModel) -> (r: Result<Vec<BodyPlan>, BuildError>)
    ensures
        r matches Err(BuildError::UnknownLink) <==> !links_known(*m),
        r matches Err(BuildError::NoRootLink) <==> links_known(*m) && root_link(*m) is None,
        r matches Ok(plan) ==> plan_valid(*m, plan@),
{
    if !check_links_known(m) {
        return Err(BuildError::UnknownLink);
    }
    let root = match find_root(m) {
        Some(r) => r,
        None => {
            return Err(BuildError::NoRootLink);
        },
    };
    proof {
        assert(root < m.links@.len()) by {
            lemma_first_root_range(*m, 0);
        }
        lemma_link_named_found(*m, m.links@[root as int].name@, m.links@.len() - 1, root as int);
    }
    let root_body = match find_link(m, &m.links[root].name) {
        Some(i) => i,
        None => {
            return Err(BuildError::NoRootLink);
        },
    };
    let n = m.links.len();
    let mut visited: Vec<bool> = Vec::new();
    while visited.len() < n
        invariant
            visited@.len() <= n,
            forall|l: int| 0 <= l < visited@.len() ==> !visited@[l],
        decreases n - visited.len(),
    {
        visited.push(false);
    }
    visited.set(root_body, true);
    let mut plan: Vec<BodyPlan> = Vec::new();
    plan.push(plan_body(m, root_body, None));
    let ghost mut seen: Set<int> = set![root_body as int];
    proof {
        assert(has_body(plan@, root_body as int));
        assert(seen.len() == 1) by {
            assert(seen =~= Set::<int>::empty().insert(root_body as int));
        }
    }
    let mut cursor: usize = 0;
    while cursor < plan.len()
        invariant
            links_known(*m),
            n == m.links@.len(),
            visited@.len() == n,
            0 < plan@.len(),
            cursor <= plan@.len(),
            root_link(*m) == Some(root as int),
            root < n,
            link_named(*m, m.links@[root as int].name@) == Some(plan@[0].link as int),
            forall|k: int| 0 <= k < plan@.len() ==> body_fits(*m, #[trigger] plan@[k]),
            forall|k: int| 0 <= k < plan@.len() ==> #[trigger] attachment_fits(*m, plan@, k),
            forall|k1: int, k2: int|
                0 <= k1 < k2 < plan@.len() ==> (#[trigger] plan@[k1]).link != (#[trigger] plan@[k2]).link,
            forall|k: int| 0 <= k < plan@.len() ==> visited@[(#[trigger] plan@[k]).link as int],
            forall|l: int| 0 <= l < n && visited@[l] ==> has_body(plan@, l),
            forall|l: int| #[trigger] seen.contains(l) <==> 0 <= l < n && visited@[l],
            seen.finite(),
            seen.len() == plan@.len(),
            forall|p: int| 0 <= p < cursor ==> #[trigger] children_planned(*m, plan@, p),
        decreases n - plan@.len() + 1, plan@.len() - cursor,
    {
        proof {
            vstd::set_lib::lemma_int_range(0, n as int);
            vstd::set_lib::lemma_len_subset(seen, vstd::set_lib::set_int_range(0, n as int));
        }
        let p_link = plan[cursor].link;
        let ghost start_len = plan@.len();
        let mut j: usize = 0;
        while j < m.joints.len()
            invariant
                links_known(*m),
                n == m.links@.len(),
                visited@.len() == n,
                0 < plan@.len(),
                cursor < plan@.len(),
                p_link == plan@[cursor as int].link,
                p_link < n,
                root < n,
                plan@.len() >= start_len,
                j <= m.joints@.len(),
                link_named(*m, m.links@[root as int].name@) == Some(plan@[0].link as int),
                forall|k: int| 0 <= k < plan@.len() ==> body_fits(*m, #[trigger] plan@[k]),
                forall|k: int| 0 <= k < plan@.len() ==> #[trigger] attachment_fits(*m, plan@, k),
                forall|k1: int, k2: int|
                    0 <= k1 < k2 < plan@.len() ==> (#[trigger] plan@[k1]).link != (#[trigger] plan@[k2]).link,
                forall|k: int| 0 <= k < plan@.len() ==> visited@[(#[trigger] plan@[k]).link as int],
                forall|l: int| 0 <= l < n && visited@[l] ==> has_body(plan@, l),
                forall|l: int| #[trigger] seen.contains(l) <==> 0 <= l < n && visited@[l],
                seen.finite(),
                seen.len() == plan@.len(),
                plan@.len() <= n,
                forall|p: int| 0 <= p < cursor ==> #[trigger] children_planned(*m, plan@, p),
                forall|jj: int|
                    0 <= jj < j && #[trigger] m.joints@[jj].parent@ == m.links@[p_link as int].name@
                        ==> joint_child_planned(*m, plan@, jj),
            decreases m.joints.len() - j,
        {
            if m.joints[j].parent == m.links[p_link].name {
                let c = match find_link(m, &m.joints[j].child) {
                    Some(c) => c,
                    None => {
                        proof {
                            assert(link_named(*m, m.joints@[j as int].child@) is Some);
                        }
                        return Err(BuildError::UnknownLink);
                    },
                };
                if !visited[c] {
                    let ghost old_plan = plan@;
                    let kind = classify_joint(m.joints[j].kind);
                    let body = plan_body(m, c, Some(Attachment { parent: cursor, joint: j, kind }));
                    visited.set(c, true);
                    plan.push(body);
                    proof {
                        seen = seen.insert(c as int);
                        assert(!old_plan.contains(body)) by {
                            if old_plan.contains(body) {
                                let q = choose|q: int| 0 <= q < old_plan.len() && old_plan[q] == body;
                                assert(visited@[old_plan[q].link as int]);
                            }
                        }
                        assert forall|k: int| 0 <= k < plan@.len() implies #[trigger] attachment_fits(
                            *m,
                            plan@,
                            k,
                        ) by {
                            if k < old_plan.len() {
                                assert(attachment_fits(*m, old_plan, k));
                                assert(plan@[k] == old_plan[k]);
                            }
                        }
                        assert forall|k1: int, k2: int|
                            0 <= k1 < k2 < plan@.len() implies (#[trigger] plan@[k1]).link != (
                            #[trigger] plan@[k2]).link by {
                            if k2 == old_plan.len() {
                                assert(visited@[plan@[k1].link as int] || k1 == old_plan.len());
                            }
                        }
                        assert forall|l: int| 0 <= l < n && visited@[l] implies has_body(plan@, l) by {
                            if l == c {
                                assert(plan@[old_plan.len() as int].link == c);
                            } else {
                                assert(has_body(old_plan, l));
                                let q = choose|q: int| 0 <= q < old_plan.len() && #[trigger] old_plan[q].link == l;
                                assert(plan@[q].link == l);
                            }
                        }
                        assert forall|p: int| 0 <= p < cursor implies #[trigger] children_planned(
                            *m,
                            plan@,
                            p,
                        ) by {
                            assert(children_planned(*m, old_plan, p));
                            assert(plan@[p] == old_plan[p]);
                            assert forall|jj: int|
                                0 <= jj < m.joints@.len() && #[trigger] m.joints@[jj].parent@
                                    == m.links@[plan@[p].link as int].name@ implies joint_child_planned(*m, plan@, jj) by {
                                let cc = link_named(*m, m.joints@[jj].child@)->Some_0;
                                let q = choose|q: int| 0 <= q < old_plan.len() && #[trigger] old_plan[q].link == cc;
                                assert(plan@[q].link == cc);
                            }
                        }
                        assert forall|jj: int|
                            0 <= jj < j && #[trigger] m.joints@[jj].parent@ == m.links@[p_link as int].name@
                                implies joint_child_planned(*m, plan@, jj) by {
                            let cc = link_named(*m, m.joints@[jj].child@)->Some_0;
                            let q = choose|q: int| 0 <= q < old_plan.len() && #[trigger] old_plan[q].link == cc;
                            assert(plan@[q].link == cc);
                        }
                        assert(has_body(plan@, c as int)) by {
                            assert(plan@[old_plan.len() as int].link == c);
                        }
                        vstd::set_lib::lemma_int_range(0, n as int);
                        assert(seen.subset_of(vstd::set_lib::set_int_range(0, n as int)));
                        vstd::set_lib::lemma_len_subset(seen, vstd::set_lib::set_int_range(0, n as int));
                    }
                } else {
                    proof {
                        assert(has_body(plan@, c as int));
                    }
                }
            }
            j = j + 1;
        }
        cursor = cursor + 1;
    }
    proof {
        assert(attachment_fits(*m, plan@, 0));
    }
    Ok(plan)
}

proof fn lemma_first_root_range(m: RobotModel, i: int)
    requires
        0 <= i,
    ensures
        crate::model::first_root_from(m, i) matches Some(r) ==> i <= r < m.links@.len()
            && !crate::model::is_child_name(m, m.links@[r].name@),
    decreases m.links@.len() - i,
{
    if i < m.links@.len() {
        lemma_first_root_range(m, i + 1);
    }
}

} // verus!
