//! What the program needs to know of the scene it shows: which meshes
//! belong to which piece, which of them can be picked, which are hidden.

use crate::board::PieceId;
use vstd::prelude::*;

verus! {

/// Identifies a thing in the scene.
pub type EntityId = u64;

/// Marks the camera through which the player looks.
#[derive(Clone, Copy, Debug, PartialEq, Eq, Structural)]
pub struct PlayerCamera;

/// The sound of a piece landing, once it has been loaded: the number under
/// which the program keeps it.
#[derive(Clone, Copy, Debug, PartialEq, Eq, Structural)]
pub struct ClickNoise(pub Option<u64>);

/// The table, once it has been built.
#[derive(Clone, Copy, Debug, PartialEq, Eq, Structural)]
pub struct Table(pub Option<EntityId>);

/// Marks a model of a piece whose mesh has not been set up yet: whether
/// it is the model of a Red piece, and whether it is the model of a king.
#[derive(Clone, Copy, Debug, PartialEq, Eq, Structural)]
pub struct SetupModel(pub bool, pub bool);

/// On a mesh: the piece that it shows.
#[derive(Clone, Copy, Debug, PartialEq, Eq, Structural)]
pub struct CheckerMesh(pub PieceId);

/// On a model: the mesh that shows it.
#[derive(Clone, Copy, Debug, PartialEq, Eq, Structural)]
pub struct CheckerMeshReference(pub EntityId);

/// Says that something has landed after a jump.
#[derive(Clone, Copy, Debug, PartialEq, Eq, Structural)]
pub struct QuadLandEvent(pub EntityId);

/// A thing in the scene and the things directly below it.
#[derive(Clone, Debug, PartialEq, Eq)]
pub struct Node {
    pub entity: EntityId,
    pub children: Vec<EntityId>,
}

/// A model of a piece whose scene has been loaded: the model, the things
/// directly below it, the piece it belongs to, and its mark.
#[derive(Clone, Debug, PartialEq, Eq)]
pub struct LoadedModel {
    pub entity: EntityId,
    pub children: Vec<EntityId>,
    pub checker: PieceId,
    pub setup: SetupModel,
}

/// What is to be done with the mesh of a model: the model gets a
/// reference to the mesh in place of its mark, the mesh can be picked
/// where `pickable` names its piece, and is hidden where `hidden` is set.
#[derive(Clone, Copy, Debug, PartialEq, Eq, Structural)]
pub struct MeshSetup {
    pub model: EntityId,
    pub reference: CheckerMeshReference,
    pub pickable: Option<CheckerMesh>,
    pub hidden: bool,
}

/// The first of the nodes that describes `entity`, if there is one.
pub open spec fn node_of(scene: Seq<Node>, entity: EntityId) -> Option<Node>
    decreases scene.len(),
{
    if scene.len() == 0 {
        None
    } else if scene[0].entity == entity {
        Some(scene[0])
    } else {
        node_of(scene.skip(1), entity)
    }
}

/// The first thing below `entity`, if the scene describes `entity` and
/// there is something below it.
pub open spec fn first_child(scene: Seq<Node>, entity: EntityId) -> Option<EntityId> {
    match node_of(scene, entity) {
        Some(node) => if node.children@.len() > 0 {
            Some(node.children@[0])
        } else {
            None
        },
        None => None,
    }
}

/// The mesh of a model: the first thing below the first thing below the
/// first thing below it.
pub open spec fn mesh_of(scene: Seq<Node>, model: LoadedModel) -> Option<EntityId> {
    if model.children@.len() == 0 {
        None
    } else {
        match first_child(scene, model.children@[0]) {
            Some(child) => first_child(scene, child),
            None => None,
        }
    }
}

/// What is to be done with the mesh of a model.
pub open spec fn mesh_setup(model: LoadedModel, mesh: EntityId) -> MeshSetup {
    MeshSetup {
        model: model.entity,
        reference: CheckerMeshReference(mesh),
        pickable: if model.setup.0 {
            Some(CheckerMesh(model.checker))
        } else {
            None
        },
        hidden: model.setup.1,
    }
}

/// What is to be done for the first `n` of the models, in their order. A
/// model with nothing below it is passed over.
pub open spec fn mesh_setups(scene: Seq<Node>, models: Seq<LoadedModel>, n: int) -> Seq<MeshSetup>
    decreases n,
{
    if n <= 0 {
        Seq::empty()
    } else {
        let rest = mesh_setups(scene, models, n - 1);
        match mesh_of(scene, models[n - 1]) {
            Some(mesh) => rest.push(mesh_setup(models[n - 1], mesh)),
            None => rest,
        }
    }
}

/// The first thing below `entity` in the scene.
pub fn find_first_child(scene: &Vec<Node>, entity: EntityId) -> (child: Option<EntityId>)
    ensures
        child == first_child(scene@, entity),
{
    let mut i: usize = 0;
    assert(scene@.skip(0) =~= scene@);
    while i < scene.len()
        invariant
            i <= scene@.len(),
            node_of(scene@, entity) == node_of(scene@.skip(i as int), entity),
        decreases scene@.len() - i,
    {
        proof {
            assert(scene@.skip(i as int).skip(1) =~= scene@.skip(i + 1));
            assert(scene@.skip(i as int)[0] == scene@[i as int]);
        }
        if scene[i].entity == entity {
            if scene[i].children.len() > 0 {
                return Some(scene[i].children[0]);
            } else {
                return None;
            }
        }
        i = i + 1;
    }
    None
}

/// Remembers the sound of a landing piece once it has been loaded.
pub fn load_audio(click: &mut ClickNoise, loaded: u64)
    ensures
        final(click).0 == Some(loaded),
{
    click.0 = Some(loaded);
}

/// Sets up the meshes of the models whose scenes have been loaded. The
/// mesh of a model lies three levels below it. The mesh of a Red piece
/// can be picked and names its piece; the mesh of a king is hidden; each
/// model gets a reference to its mesh. A model with nothing below it is
/// passed over. Every other model must have its mesh in the scene.
pub fn set_up_checker_pickables(models: &Vec<LoadedModel>, scene: &Vec<Node>) -> (setups: Vec<
    MeshSetup,
>)
    requires
        forall|k: int|
            0 <= k < models@.len() && (#[trigger] models@[k]).children@.len() > 0 ==> mesh_of(
                scene@,
                models@[k],
            ) is Some,
    ensures
        setups@ == mesh_setups(scene@, models@, models@.len() as int),
{
    let mut setups: Vec<MeshSetup> = Vec::new();
    let mut i: usize = 0;
    while i < models.len()
        invariant
            i <= models@.len(),
            setups@ == mesh_setups(scene@, models@, i as int),
            forall|k: int|
                0 <= k < models@.len() && (#[trigger] models@[k]).children@.len() > 0 ==> mesh_of(
                    scene@,
                    models@[k],
                ) is Some,
        decreases models@.len() - i,
    {
        let model = &models[i];
        if model.children.len() > 0 {
            let child0 = model.children[0];
            let child1 = find_first_child(scene, child0);
            assert(child1 is Some);
            let child2 = find_first_child(scene, child1.unwrap());
            assert(child2 is Some);
            let mesh = child2.unwrap();
            setups.push(
                MeshSetup {
                    model: model.entity,
                    reference: CheckerMeshReference(mesh),
                    pickable: if model.setup.0 {
                        Some(CheckerMesh(model.checker))
                    } else {
                        None
                    },
                    hidden: model.setup.1,
                },
            );
        }
        i = i + 1;
    }
    setups
}

} // verus!
