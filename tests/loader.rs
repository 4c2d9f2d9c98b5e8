use robot_loader::colliders::{poll_body, BodyState, Finalized, MeshPoll};
use robot_loader::decode::decode_source;
use robot_loader::files::{is_main_candidate_exec, select_main_file};
use robot_loader::loader::{LoadRobotRequest, LoaderState};
use robot_loader::parse::{parse_description, ParseError};
use robot_loader::macros::{
    fragment_of, include_paths, inline_includes, remove_first, resolve_packages, FragmentTag,
};
use robot_loader::model::{find_root, JointKind, JointSpec, LinkSpec, RobotModel};
use robot_loader::plan::{
    choose_mass, classify_joint, mesh_asset_path, plan_tree, Attachment, BuildError,
    ConstraintKind, MassChoice,
};

fn chars(s: &str) -> Vec<char> {
    s.chars().collect()
}

fn text(v: &[char]) -> String {
    v.iter().collect()
}

fn link(name: &str, mass: f64, meshes: &[Option<&str>]) -> LinkSpec {
    LinkSpec {
        name: name.to_string(),
        mass_bits: mass.to_bits(),
        visuals: meshes.iter().map(|m| m.map(chars)).collect(),
    }
}

fn joint(name: &str, parent: &str, child: &str, kind: JointKind) -> JointSpec {
    JointSpec {
        name: name.to_string(),
        parent: parent.to_string(),
        child: child.to_string(),
        kind,
    }
}

fn model_from_urdf(robot: &urdf_rs::Robot) -> RobotModel {
    let links = robot
        .links
        .iter()
        .map(|l| LinkSpec {
            name: l.name.clone(),
            mass_bits: l.inertial.mass.value.to_bits(),
            visuals: l
                .visual
                .iter()
                .map(|v| match &v.geometry {
                    urdf_rs::Geometry::Mesh { filename, .. } => Some(chars(filename)),
                    _ => None,
                })
                .collect(),
        })
        .collect();
    let joints = robot
        .joints
        .iter()
        .map(|j| JointSpec {
            name: j.name.clone(),
            parent: j.parent.link.clone(),
            child: j.child.link.clone(),
            kind: match j.joint_type {
                urdf_rs::JointType::Revolute => JointKind::Revolute,
                urdf_rs::JointType::Continuous => JointKind::Continuous,
                urdf_rs::JointType::Prismatic => JointKind::Prismatic,
                urdf_rs::JointType::Fixed => JointKind::Fixed,
                urdf_rs::JointType::Floating => JointKind::Floating,
                urdf_rs::JointType::Planar => JointKind::Planar,
                urdf_rs::JointType::Spherical => JointKind::Spherical,
            },
        })
        .collect();
    RobotModel { links, joints }
}

#[test]
fn decode_accepts_utf8() {
    let bytes = "<robot name=\"ロボ\"/>".as_bytes().to_vec();
    assert_eq!(text(&decode_source(&bytes)), "<robot name=\"ロボ\"/>");
}

#[test]
fn decode_falls_back_to_shift_jis() {
    // "日本" in Shift_JIS, which is not valid UTF-8.
    let bytes = vec![0x93, 0xfa, 0x96, 0x7b];
    assert_eq!(text(&decode_source(&bytes)), "日本");
}

#[test]
fn decode_empty_is_empty() {
    assert_eq!(decode_source(&Vec::new()).len(), 0);
}

#[test]
fn package_token_becomes_models_path() {
    let s = chars("<mesh filename=\"$(find robot_description)/meshes/base.stl\"/>");
    assert_eq!(
        text(&resolve_packages(&s)),
        "<mesh filename=\"assets/models/robot_description/meshes/base.stl\"/>"
    );
}

#[test]
fn every_package_token_is_replaced() {
    let s = chars("a $(find pkg) b $(find pkg) c $(find pkg)");
    assert_eq!(
        text(&resolve_packages(&s)),
        "a assets/models/pkg b assets/models/pkg c assets/models/pkg"
    );
}

#[test]
fn package_token_whitespace_and_edges() {
    assert_eq!(text(&resolve_packages(&chars("$(find \t  arm)"))), "assets/models/arm");
    // Two spaces and nothing else: the last space is the package.
    assert_eq!(text(&resolve_packages(&chars("$(find  )"))), "assets/models/ ");
    // No space, or nothing between the space and `)`: not a token.
    assert_eq!(text(&resolve_packages(&chars("$(findarm)"))), "$(findarm)");
    assert_eq!(text(&resolve_packages(&chars("$(find )"))), "$(find )");
    // No closing parenthesis.
    assert_eq!(text(&resolve_packages(&chars("$(find arm"))), "$(find arm");
}

#[test]
fn text_without_macros_is_unchanged() {
    let s = chars("<?xml version=\"1.0\"?>\n<robot name=\"r\">\n  <link name=\"base\"/>\n</robot>\n");
    let resolved = resolve_packages(&s);
    assert_eq!(resolved, s);
    assert!(include_paths(&resolved).is_empty());
    let bodies = vec![Some(chars("<robot>x</robot>"))];
    assert_eq!(inline_includes(&resolved, &bodies), s);
}

#[test]
fn include_paths_in_order() {
    let s = chars(
        "<robot><xacro:include filename=\"a.xacro\"/>\n<xacro:include\n  filename=\"b/c.xacro\"  />\
         <xacro:include filename=\"\"/><xacro:includefilename=\"d\"/></robot>",
    );
    let paths: Vec<String> = include_paths(&s).iter().map(|p| text(p)).collect();
    assert_eq!(paths, vec!["a.xacro".to_string(), "b/c.xacro".to_string()]);
}

#[test]
fn fragment_strips_declaration_and_root_tags() {
    let raw = chars(
        "<?xml version=\"1.0\"?>\n<robot xmlns:xacro=\"x\">\n<link name=\"$(find p)\"/>\n</ robot >\n",
    );
    assert_eq!(
        text(&fragment_of(&raw)),
        "\n\n<link name=\"assets/models/p\"/>\n\n"
    );
}

#[test]
fn remove_first_takes_only_the_leftmost_match() {
    let s = chars("a<robot>b<robot>c");
    assert_eq!(text(&remove_first(&FragmentTag::RootOpen, &s)), "ab<robot>c");
    let d = chars("<?xml a>b?>");
    // The declaration must end at its first `>` with `?>`.
    assert_eq!(text(&remove_first(&FragmentTag::Declaration, &d)), "<?xml a>b?>");
    let c = chars("x< /robot>y</robot>");
    assert_eq!(text(&remove_first(&FragmentTag::RootClose, &c)), "xy</robot>");
}

#[test]
fn unreadable_include_vanishes() {
    let s = chars("<robot>A<xacro:include filename=\"x.xacro\"/>B<xacro:include filename=\"y.xacro\"/>C</robot>");
    let bodies = vec![None, Some(chars("<robot>Y</robot>"))];
    assert_eq!(text(&inline_includes(&s, &bodies)), "<robot>ABYC</robot>");
    assert_eq!(text(&inline_includes(&s, &Vec::new())), "<robot>ABC</robot>");
}

#[test]
fn main_file_skips_fragments() {
    let names: Vec<Vec<char>> = ["robot", "robot.materials.xacro", "arm.trans.xacro", "notes.txt", "robot.xacro", "other.xacro"]
        .iter()
        .map(|n| chars(n))
        .collect();
    assert_eq!(select_main_file(&names), Some(4));
}

#[test]
fn main_file_absent() {
    let names: Vec<Vec<char>> = [".xacro", "transmission.xacro", "robot.urdf", "robot.xacro.bak"]
        .iter()
        .map(|n| chars(n))
        .collect();
    assert_eq!(select_main_file(&names), None);
    assert!(!is_main_candidate_exec(&chars("Materials.urdf")));
    assert!(is_main_candidate_exec(&chars("a.b.xacro")));
    assert!(is_main_candidate_exec(&chars("Materials.xacro")));
}

#[test]
fn mass_positive_is_kept() {
    assert_eq!(choose_mass(2.5f64.to_bits()), MassChoice::Declared(2.5f64.to_bits()));
    assert_eq!(choose_mass(f64::MIN_POSITIVE.to_bits()), MassChoice::Declared(f64::MIN_POSITIVE.to_bits()));
}

#[test]
fn mass_not_positive_gets_default() {
    assert_eq!(choose_mass(0.0f64.to_bits()), MassChoice::Default);
    assert_eq!(choose_mass((-0.0f64).to_bits()), MassChoice::Default);
    assert_eq!(choose_mass((-3.0f64).to_bits()), MassChoice::Default);
    assert_eq!(choose_mass(f64::NAN.to_bits()), MassChoice::Default);
}

#[test]
fn joint_kinds_classify() {
    assert_eq!(classify_joint(JointKind::Revolute), ConstraintKind::Revolute);
    assert_eq!(classify_joint(JointKind::Continuous), ConstraintKind::Revolute);
    assert_eq!(classify_joint(JointKind::Fixed), ConstraintKind::Rigid);
    assert_eq!(classify_joint(JointKind::Prismatic), ConstraintKind::Rigid);
    assert_eq!(classify_joint(JointKind::Spherical), ConstraintKind::Rigid);
}

#[test]
fn mesh_reference_becomes_asset_path() {
    assert_eq!(
        text(&mesh_asset_path(&chars("package://robot_description\\meshes\\base.stl"))),
        "models/robot_description/meshes/base.stl"
    );
    assert_eq!(text(&mesh_asset_path(&chars("package://package://x"))), "models/models/x");
}

#[test]
fn root_is_the_link_that_is_no_child() {
    let m = RobotModel {
        links: vec![link("arm", 1.0, &[]), link("base", 1.0, &[]), link("hand", 1.0, &[])],
        joints: vec![
            joint("j2", "arm", "hand", JointKind::Fixed),
            joint("j1", "base", "arm", JointKind::Revolute),
        ],
    };
    assert_eq!(find_root(&m), Some(1));
}

#[test]
fn cycle_has_no_root() {
    let m = RobotModel {
        links: vec![link("a", 1.0, &[]), link("b", 1.0, &[])],
        joints: vec![
            joint("ab", "a", "b", JointKind::Fixed),
            joint("ba", "b", "a", JointKind::Fixed),
        ],
    };
    assert_eq!(find_root(&m), None);
    assert_eq!(plan_tree(&m).err(), Some(BuildError::NoRootLink));
}

#[test]
fn unknown_link_is_rejected() {
    let m = RobotModel {
        links: vec![link("a", 1.0, &[])],
        joints: vec![joint("j", "a", "ghost", JointKind::Fixed)],
    };
    assert_eq!(plan_tree(&m).err(), Some(BuildError::UnknownLink));
}

#[test]
fn plan_of_a_chain() {
    let m = RobotModel {
        links: vec![
            link("hand", 0.0, &[Some("package://r/hand.stl")]),
            link("base", 4.0, &[None, Some("package://r/base.stl")]),
            link("arm", -1.0, &[Some("a.stl"), Some("b.stl")]),
        ],
        joints: vec![
            joint("wrist", "arm", "hand", JointKind::Continuous),
            joint("shoulder", "base", "arm", JointKind::Fixed),
        ],
    };
    let plan = plan_tree(&m).unwrap();
    assert_eq!(plan.len(), 3);
    assert_eq!(plan[0].link, 1);
    assert_eq!(plan[0].attachment, None);
    assert_eq!(plan[0].mass, MassChoice::Declared(4.0f64.to_bits()));
    assert_eq!(plan[0].collider, Some(1));
    assert_eq!(plan[0].visuals.len(), 1);
    assert_eq!(plan[0].visuals[0].visual, 1);
    assert_eq!(text(&plan[0].visuals[0].asset_path), "models/r/base.stl");
    assert_eq!(plan[1].link, 2);
    assert_eq!(plan[1].mass, MassChoice::Default);
    assert_eq!(plan[1].collider, Some(1));
    assert_eq!(
        plan[1].attachment,
        Some(Attachment { parent: 0, joint: 1, kind: ConstraintKind::Rigid })
    );
    assert_eq!(plan[2].link, 0);
    assert_eq!(plan[2].mass, MassChoice::Default);
    assert_eq!(
        plan[2].attachment,
        Some(Attachment { parent: 1, joint: 0, kind: ConstraintKind::Revolute })
    );
}

#[test]
fn repeated_child_is_planned_once() {
    let m = RobotModel {
        links: vec![link("base", 1.0, &[]), link("a", 1.0, &[]), link("b", 1.0, &[])],
        joints: vec![
            joint("j1", "base", "a", JointKind::Fixed),
            joint("j2", "a", "b", JointKind::Fixed),
            joint("j3", "base", "b", JointKind::Fixed),
        ],
    };
    let plan = plan_tree(&m).unwrap();
    let links: Vec<usize> = plan.iter().map(|b| b.link).collect();
    assert_eq!(links, vec![0, 1, 2]);
    assert_eq!(plan[2].attachment.unwrap().joint, 2);
}

#[test]
fn mesh_never_loaded_keeps_collider_pending() {
    let mut s = BodyState { dynamic: false, collider_pending: true, joint_pending: None };
    for _ in 0..100 {
        assert_eq!(poll_body(&mut s, MeshPoll::NotLoaded), Finalized::Nothing);
    }
    assert!(s.collider_pending);
    assert!(!s.dynamic);
}

#[test]
fn hull_failure_is_retried() {
    let a = Attachment { parent: 0, joint: 3, kind: ConstraintKind::Revolute };
    let mut s = BodyState { dynamic: false, collider_pending: true, joint_pending: Some(a) };
    assert_eq!(poll_body(&mut s, MeshPoll::HullFailed), Finalized::Nothing);
    assert!(s.collider_pending);
    assert_eq!(poll_body(&mut s, MeshPoll::HullBuilt), Finalized::ColliderAndJoint(a));
    assert!(s.dynamic);
    assert!(!s.collider_pending);
    assert_eq!(s.joint_pending, None);
    assert_eq!(poll_body(&mut s, MeshPoll::HullBuilt), Finalized::Nothing);
}

#[test]
fn body_without_mesh_keeps_its_joint_pending() {
    let a = Attachment { parent: 0, joint: 0, kind: ConstraintKind::Rigid };
    let mut s = BodyState { dynamic: false, collider_pending: false, joint_pending: Some(a) };
    assert_eq!(poll_body(&mut s, MeshPoll::HullBuilt), Finalized::Nothing);
    assert_eq!(s.joint_pending, Some(a));
    assert!(!s.dynamic);
}

#[test]
fn second_request_wins() {
    let mut st = LoaderState::new();
    st.request_load(LoadRobotRequest { model_name: "first".to_string() });
    st.request_load(LoadRobotRequest { model_name: "second".to_string() });
    assert_eq!(st.marker.as_deref(), Some("second"));
    assert_eq!(st.take_request().as_deref(), Some("second"));
    assert_eq!(st.take_request(), None);
}

#[test]
fn request_tears_down_current_robot() {
    let m = RobotModel { links: vec![link("base", 1.0, &[Some("b.stl")])], joints: vec![] };
    let plan = plan_tree(&m).unwrap();
    let mut st = LoaderState::new();
    st.install(&plan);
    assert_eq!(st.bodies.len(), 1);
    assert!(st.bodies[0].collider_pending);
    st.request_load(LoadRobotRequest { model_name: "next".to_string() });
    assert!(st.bodies.is_empty());
}

#[test]
fn end_to_end_xacro_with_transmission_include() {
    let main = "<?xml version=\"1.0\"?>\n\
<robot name=\"bot\" xmlns:xacro=\"http://www.ros.org/wiki/xacro\">\n\
  <xacro:include filename=\"$(find robot_description)/urdf/robot.trans.xacro\"/>\n\
  <link name=\"base_link\">\n\
    <inertial><mass value=\"3.0\"/><inertia ixx=\"1\" ixy=\"0\" ixz=\"0\" iyy=\"1\" iyz=\"0\" izz=\"1\"/></inertial>\n\
    <visual><geometry><mesh filename=\"package://robot_description/meshes/base.stl\"/></geometry></visual>\n\
  </link>\n\
  <link name=\"wheel\">\n\
    <visual><geometry><mesh filename=\"$(find robot_description)/meshes/wheel.stl\" scale=\"0.001 0.001 0.001\"/></geometry></visual>\n\
  </link>\n\
  <link name=\"lid\">\n\
    <visual><geometry><mesh filename=\"package://robot_description/meshes/lid.stl\"/></geometry></visual>\n\
  </link>\n\
  <joint name=\"wheel_joint\" type=\"continuous\">\n\
    <parent link=\"base_link\"/><child link=\"wheel\"/><origin xyz=\"0 0.1 0\" rpy=\"0 0 0\"/><axis xyz=\"0 1 0\"/>\n\
  </joint>\n\
  <joint name=\"lid_joint\" type=\"fixed\">\n\
    <parent link=\"base_link\"/><child link=\"lid\"/>\n\
  </joint>\n\
</robot>\n";
    let trans = "<?xml version=\"1.0\"?>\n<robot xmlns:xacro=\"http://www.ros.org/wiki/xacro\">\n  <transmission name=\"wheel_trans\"/>\n</robot>\n";

    let names: Vec<Vec<char>> = ["robot.trans.xacro", "robot.xacro"].iter().map(|n| chars(n)).collect();
    assert_eq!(select_main_file(&names), Some(1));

    let resolved = resolve_packages(&decode_source(&main.as_bytes().to_vec()));
    let paths = include_paths(&resolved);
    assert_eq!(paths.len(), 1);
    assert_eq!(text(&paths[0]), "assets/models/robot_description/urdf/robot.trans.xacro");
    let bodies = vec![Some(decode_source(&trans.as_bytes().to_vec()))];
    let flat = text(&inline_includes(&resolved, &bodies));
    assert!(flat.contains("<transmission name=\"wheel_trans\"/>"));
    assert!(!flat.contains("xacro:include"));
    assert!(!flat.contains("$(find"));
    assert_eq!(flat.matches("<robot").count(), 1);
    assert_eq!(flat.matches("</robot>").count(), 1);

    let robot = parse_description(&chars(&flat)).unwrap();
    let model = model_from_urdf(&robot);
    let plan = plan_tree(&model).unwrap();
    assert_eq!(plan.len(), 3);
    let mut planned: Vec<String> = plan.iter().map(|b| model.links[b.link].name.clone()).collect();
    planned.sort();
    assert_eq!(planned, vec!["base_link".to_string(), "lid".to_string(), "wheel".to_string()]);
    assert_eq!(text(&plan[1].visuals[0].asset_path), "assets/models/robot_description/meshes/wheel.stl");

    let mut st = LoaderState::new();
    st.install(&plan);
    let polls = vec![MeshPoll::HullBuilt; plan.len()];
    let done = st.poll(&polls);
    let mut kinds = Vec::new();
    for f in &done {
        match f {
            Finalized::ColliderAndJoint(a) => kinds.push((model.joints[a.joint].name.clone(), a.kind)),
            Finalized::Collider => {}
            Finalized::Nothing => panic!("a body stayed pending"),
        }
    }
    kinds.sort_by(|x, y| x.0.cmp(&y.0));
    assert_eq!(
        kinds,
        vec![
            ("lid_joint".to_string(), ConstraintKind::Rigid),
            ("wheel_joint".to_string(), ConstraintKind::Revolute),
        ]
    );
    assert!(st.bodies.iter().all(|b| !b.collider_pending && b.joint_pending.is_none() && b.dynamic));
}

#[test]
fn parser_rejects_malformed_text() {
    assert_eq!(parse_description(&chars("<robot><link")).err(), Some(ParseError::Rejected));
}

#[test]
fn parser_accepts_a_flat_description() {
    let r = parse_description(&chars(
        "<robot name=\"r\"><link name=\"a\"/><link name=\"b\"/>\
         <joint name=\"j\" type=\"revolute\"><parent link=\"a\"/><child link=\"b\"/>\
         <limit lower=\"0\" upper=\"1\" effort=\"1\" velocity=\"1\"/></joint></robot>",
    ))
    .unwrap();
    assert_eq!(r.links.len(), 2);
    assert_eq!(r.joints[0].child.link, "b");
}
