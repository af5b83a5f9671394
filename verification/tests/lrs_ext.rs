use liblrs::lrm_scale::{Anchor, LrmScale};
use liblrs::lrs::{Lrm, LrmHandle, Lrs, TraversalHandle};
use liblrs::lrs_ext::ExtLrs;

fn anchor(id: &str, scale_position: usize, curve_position: usize) -> Anchor {
    Anchor {
        id: id.to_owned(),
        scale_position,
        curve_position,
    }
}

fn lrm(id: &str, anchors: Vec<Anchor>) -> Lrm {
    Lrm {
        scale: LrmScale {
            id: id.to_owned(),
            anchors,
        },
        reference_traversal: TraversalHandle(0),
    }
}

fn system() -> Lrs {
    Lrs {
        lrms: vec![
            lrm("north", vec![anchor("a", 0, 0), anchor("b", 1000, 990)]),
            lrm("south", vec![]),
            lrm("north", vec![anchor("c", 5, 5)]),
        ],
    }
}

#[test]
fn lrm_len_counts_the_methods() {
    assert_eq!(3, ExtLrs::Planar(system()).lrm_len());
    assert_eq!(3, ExtLrs::Spherical(system()).lrm_len());
    assert_eq!(0, ExtLrs::Planar(Lrs { lrms: vec![] }).lrm_len());
}

#[test]
fn find_lrm_gives_the_first_of_that_name() {
    for lrs in [ExtLrs::Planar(system()), ExtLrs::Spherical(system())] {
        assert_eq!(Some(0), lrs.find_lrm("north"));
        assert_eq!(Some(1), lrs.find_lrm("south"));
        assert_eq!(None, lrs.find_lrm("east"));
        assert_eq!(None, lrs.find_lrm(""));
        assert_eq!(None, lrs.find_lrm("nort"));
    }
}

#[test]
fn get_lrm_gives_a_handle() {
    assert_eq!(Some(LrmHandle(1)), system().get_lrm("south"));
    assert_eq!(None, system().get_lrm("west"));
    assert_eq!(3, system().lrm_len());
}

#[test]
fn scale_id_of_a_method() {
    let lrs = ExtLrs::Spherical(system());
    assert_eq!("north", lrs.get_lrm_scale_id(0));
    assert_eq!("south", lrs.get_lrm_scale_id(1));
    assert_eq!("north", lrs.get_lrm_scale_id(2));
}

#[test]
fn anchors_of_a_method() {
    let lrs = ExtLrs::Planar(system());
    let anchors = lrs.get_anchors(0);
    assert_eq!(2, anchors.len());
    assert_eq!("a", anchors[0].id);
    assert_eq!("b", anchors[1].id);
    assert_eq!(1000, anchors[1].scale_position);
    assert_eq!(990, anchors[1].curve_position);
    assert!(lrs.get_anchors(1).is_empty());
    assert_eq!("c", lrs.get_anchors(2)[0].id);
}

#[test]
fn anchor_clone_keeps_every_field() {
    let a = anchor("km 12", 12000, 11875);
    let b = a.clone();
    assert_eq!(a.id, b.id);
    assert_eq!(a.scale_position, b.scale_position);
    assert_eq!(a.curve_position, b.curve_position);
}

#[test]
fn load_marks_the_kind_of_coordinates() {
    let planar = ExtLrs::load(Ok(system()), true).unwrap();
    assert!(matches!(planar, ExtLrs::Planar(_)));
    assert_eq!(3, planar.lrm_len());
    let spherical = ExtLrs::load(Ok(system()), false).unwrap();
    assert!(matches!(spherical, ExtLrs::Spherical(_)));
    assert_eq!(Some(1), spherical.find_lrm("south"));
}

#[test]
fn load_hands_on_the_failure() {
    for planar in [true, false] {
        let failed = ExtLrs::load(Err("truncated".to_owned()), planar);
        match failed {
            Err(message) => assert_eq!("truncated", message),
            Ok(_) => panic!("a failure must stay a failure"),
        }
    }
}
