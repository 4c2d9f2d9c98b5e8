//! The parsed robot model as the loader reads it: named links with their
//! declared mass and visual meshes, and named joints between links.
use vstd::prelude::*;

verus! {

/// Kind of a joint, as the description format names it.
#[derive(Clone, Copy, PartialEq, Eq, Debug, Structural)]
pub enum JointKind {
    Revolute,
    Continuous,
    Prismatic,
    Fixed,
    Floating,
    Planar,
    Spherical,
}

/// A rigid segment of the robot.
pub struct LinkSpec {
    pub name: String,
    /// Declared mass, as the bit pattern of an IEEE-754 binary64 number.
    pub mass_bits: u64,
    /// One entry per visual element: the mesh file it refers to, or `None`
    /// where its geometry is not a mesh.
    pub visuals: Vec<Option<Vec<char>>>,
}

/// A joint connecting the link named `parent` to the link named `child`.
pub struct JointSpec {
    pub name: String,
    pub parent: String,
    pub child: String,
    pub kind: JointKind,
}

/// Links and joints in the order the description lists them.
pub struct RobotModel {
    pub links: Vec<LinkSpec>,
    pub joints: Vec<JointSpec>,
}

/// Some joint has the link named `name` as its child.
pub open spec fn is_child_name(m: RobotModel, name: Seq<char>) -> bool {
    exists|j: int| 0 <= j < m.joints@.len() && #[trigger] m.joints@[j].child@ == name
}

/// The last link at or before `i` that is named `name`.
pub open spec fn link_named_upto(m: RobotModel, name: Seq<char>, i: int) -> Option<int>
    decreases i + 1,
{
    if i < 0 || i >= m.links@.len() {
        None
    } else if m.links@[i].name@ == name {
        Some(i)
    } else {
        link_named_upto(m, name, i - 1)
    }
}

/// The link a name refers to: the last one listed under that name.
pub open spec fn link_named(m: RobotModel, name: Seq<char>) -> Option<int> {
    link_named_upto(m, name, m.links@.len() - 1)
}

/// Every joint names an existing link as parent and as child.
pub open spec fn links_known(m: RobotModel) -> bool {
    forall|j: int|
        0 <= j < m.joints@.len() ==> link_named(m, (#[trigger] m.joints@[j]).parent@) is Some
            && link_named(m, m.joints@[j].child@) is Some
}

/// The first link at or after `i` that is no joint's child.
pub open spec fn first_root_from(m: RobotModel, i: int) -> Option<int>
    decreases m.links@.len() - i,
{
    if i < 0 || i >= m.links@.len() {
        None
    } else if !is_child_name(m, m.links@[i].name@) {
        Some(i)
    } else {
        first_root_from(m, i + 1)
    }
}

/// The root link: the first one listed whose name is no joint's child.
pub open spec fn root_link(m: RobotModel) -> Option<int> {
    first_root_from(m, 0)
}

/// Whether some joint has the link named `name` as its child.
pub fn appears_as_child(m: &RobotModel, name: &String) -> (r: bool)
    ensures
        r == is_child_name(*m, name@),
{
    let mut j: usize = 0;
    while j < m.joints.len()
        invariant
            j <= m.joints@.len(),
            forall|k: int| 0 <= k < j ==> m.joints@[k].child@ != name@,
        decreases m.joints.len() - j,
    {
        if m.joints[j].child == *name {
            return true;
        }
        j = j + 1;
    }
    false
}

/// Index of the root link, or `None` where every link is some joint's child.
pub fn find_root(m: &RobotModel) -> (r: Option<usize>)
    ensures
        r matches Some(i) ==> root_link(*m) == Some(i as int),
        r is None ==> root_link(*m) is None,
{
    let mut i: usize = 0;
    while i < m.links.len()
        invariant
            i <= m.links@.len(),
            root_link(*m) == first_root_from(*m, i as int),
        decreases m.links.len() - i,
    {
        if !appears_as_child(m, &m.links[i].name) {
            return Some(i);
        }
        i = i + 1;
    }
    None
}

/// Index of the link that `name` refers to.
pub fn find_link(m: &RobotModel, name: &String) -> (r: Option<usize>)
    ensures
        r matches Some(i) ==> link_named(*m, name@) == Some(i as int) && i < m.links@.len(),
        r is None ==> link_named(*m, name@) is None,
{
    let mut i: usize = m.links.len();
    while i > 0
        invariant
            i <= m.links@.len(),
            link_named(*m, name@) == link_named_upto(*m, name@, i - 1),
        decreases i,
    {
        if m.links[i - 1].name == *name {
            return Some(i - 1);
        }
        i = i - 1;
    }
    None
}

/// Whether every joint names existing links.
pub fn check_links_known(m: &RobotModel) -> (r: bool)
    ensures
        r == links_known(*m),
{
    let mut j: usize = 0;
    while j < m.joints.len()
        invariant
            j <= m.joints@.len(),
            forall|k: int|
                0 <= k < j ==> link_named(*m, (#[trigger] m.joints@[k]).parent@) is Some
                    && link_named(*m, m.joints@[k].child@) is Some,
        decreases m.joints.len() - j,
    {
        if find_link(m, &m.joints[j].parent).is_none() || find_link(m, &m.joints[j].child).is_none() {
            return false;
        }
        j = j + 1;
    }
    true
}

/// A link listed at or before `i` under `name` makes the lookup succeed.
pub proof fn lemma_link_named_found(m: RobotModel, name: Seq<char>, i: int, k: int)
    requires
        0 <= k <= i < m.links@.len(),
        m.links@[k].name@ == name,
    ensures
        link_named_upto(m, name, i) matches Some(r) && k <= r <= i && m.links@[r].name@ == name,
    decreases i,
{
    if i > k && m.links@[i].name@ != name {
        lemma_link_named_found(m, name, i - 1, k);
    }
}

/// Where exactly one link, `r`, is no joint's child, root inference picks it.
pub proof fn unique_non_child_is_root(m: RobotModel, r: int)
    requires
        0 <= r < m.links@.len(),
        !is_child_name(m, m.links@[r].name@),
        forall|i: int|
            0 <= i < m.links@.len() && i != r ==> is_child_name(m, #[trigger] m.links@[i].name@),
    ensures
        root_link(m) == Some(r),
{
    lemma_first_root_skips(m, 0, r);
}

/// Where every link is some joint's child (a cycle, say), there is no root.
pub proof fn no_root_when_all_are_children(m: RobotModel)
    requires
        forall|i: int| 0 <= i < m.links@.len() ==> is_child_name(m, #[trigger] m.links@[i].name@),
    ensures
        root_link(m) is None,
{
    lemma_no_root_from(m, 0);
}

proof fn lemma_first_root_skips(m: RobotModel, i: int, r: int)
    requires
        0 <= i <= r < m.links@.len(),
        !is_child_name(m, m.links@[r].name@),
        forall|k: int| 0 <= k < m.links@.len() && k != r ==> is_child_name(m, #[trigger] m.links@[k].name@),
    ensures
        first_root_from(m, i) == Some(r),
    decreases r - i,
{
    if i < r {
        assert(is_child_name(m, m.links@[i].name@));
        lemma_first_root_skips(m, i + 1, r);
    }
}

proof fn lemma_no_root_from(m: RobotModel, i: int)
    requires
        0 <= i,
        forall|k: int| 0 <= k < m.links@.len() ==> is_child_name(m, #[trigger] m.links@[k].name@),
    ensures
        first_root_from(m, i) is None,
    decreases m.links@.len() - i,
{
    if i < m.links@.len() {
        assert(is_child_name(m, m.links@[i].name@));
        lemma_no_root_from(m, i + 1);
    }
}

} // verus!
