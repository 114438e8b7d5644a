//! The assembly builder: one pass over the buffer in the order the format
//! lays it out, the first error ending the decode.

use vstd::prelude::*;
use crate::cursor::{agrees, view_of, MrrDeserializer};
use crate::grammar::{
    assembly_at, body_at, body_item, decoded, has_signature, joint_at, joint_item,
    lemma_repeat_stops, part_at, part_item, repeat,
};
use crate::model::{
    body_views, part_views, Assembly, Body, BodyView, Joint, MrrError, Part, PartView,
};

verus! {

impl MrrDeserializer {
    /// Reads a joint: its discriminant, then its pose.
    pub fn read_joint(&mut self) -> (r: Result<Joint, MrrError>)
        requires
            old(self).wf(),
        ensures
            old(self).moves_to(*final(self)),
            agrees(joint_at(old(self).input_view(), old(self).offset()), r, final(self).offset()),
    {
        let joint_type = self.read_joint_type()?;
        let pose = self.read_pose()?;
        Ok(Joint(joint_type, pose))
    }

    /// Reads a body: triangle count, vertices, indices, normals and UVs.
    pub fn read_body(&mut self) -> (r: Result<Body, MrrError>)
        requires
            old(self).wf(),
        ensures
            old(self).moves_to(*final(self)),
            agrees(
                body_at(old(self).input_view(), old(self).offset()),
                view_of(r),
                final(self).offset(),
            ),
    {
        let triangle_count = self.read_i32()?;
        let verticies = self.read_u32_seq()?;
        let indicies = self.read_i32_seq()?;
        let normals = self.read_u32_seq()?;
        let uvs = self.read_u32_seq()?;
        Ok(Body { triangle_count, verticies, indicies, normals, uvs })
    }

    /// Reads a part: name, pose, joint references, rigid-group references and
    /// a counted list of bodies.
    pub fn read_part(&mut self) -> (r: Result<Part, MrrError>)
        requires
            old(self).wf(),
        ensures
            old(self).moves_to(*final(self)),
            agrees(
                part_at(old(self).input_view(), old(self).offset()),
                view_of(r),
                final(self).offset(),
            ),
    {
        reveal(part_at);
        let name = self.read_name()?;
        let pose = self.read_pose()?;
        let joint_references = self.read_u32_seq()?;
        let rigid_group_references = self.read_u32_seq()?;
        let count = self.read_length()?;
        let bodies = self.read_bodies(count)?;
        Ok(Part { name, pose, joint_references, rigid_group_references, bodies })
    }

    /// Reads `count` joints one after another.
    fn read_joints(&mut self, count: u64) -> (r: Result<Vec<Joint>, MrrError>)
        requires
            old(self).wf(),
        ensures
            old(self).moves_to(*final(self)),
            agrees(
                repeat(joint_item(old(self).input_view()), old(self).offset(), count as nat),
                view_of(r),
                final(self).offset(),
            ),
    {
        let ghost s = self.input_view();
        let ghost start = self.offset();
        let mut joints: Vec<Joint> = Vec::new();
        let mut i: u64 = 0;
        while i < count
            invariant
                old(self).moves_to(*self),
                s == old(self).input_view(),
                start == old(self).offset(),
                i <= count,
                repeat(joint_item(s), start, i as nat) == Ok::<(Seq<Joint>, int), MrrError>(
                    (joints@, self.offset()),
                ),
            decreases count - i,
        {
            match self.read_joint() {
                Ok(joint) => joints.push(joint),
                Err(e) => {
                    proof {
                        lemma_repeat_stops(joint_item(s), start, (i + 1) as nat, count as nat);
                    }
                    return Err(e);
                },
            }
            i = i + 1;
        }
        Ok(joints)
    }

    /// Reads `count` bodies one after another.
    fn read_bodies(&mut self, count: u64) -> (r: Result<Vec<Body>, MrrError>)
        requires
            old(self).wf(),
        ensures
            old(self).moves_to(*final(self)),
            match repeat(body_item(old(self).input_view()), old(self).offset(), count as nat) {
                Ok((xs, e)) => r matches Ok(v) && body_views(v@) == xs && final(self).offset() == e,
                Err(e) => r == Err::<Vec<Body>, MrrError>(e),
            },
    {
        let ghost s = self.input_view();
        let ghost start = self.offset();
        let mut bodies: Vec<Body> = Vec::new();
        assert(body_views(bodies@) =~= Seq::empty());
        let mut i: u64 = 0;
        while i < count
            invariant
                old(self).moves_to(*self),
                s == old(self).input_view(),
                start == old(self).offset(),
                i <= count,
                repeat(body_item(s), start, i as nat) == Ok::<(Seq<BodyView>, int), MrrError>(
                    (body_views(bodies@), self.offset()),
                ),
            decreases count - i,
        {
            match self.read_body() {
                Ok(body) => {
                    proof {
                        assert(body_views(bodies@.push(body)) =~= body_views(bodies@).push(body@));
                    }
                    bodies.push(body);
                },
                Err(e) => {
                    proof {
                        lemma_repeat_stops(body_item(s), start, (i + 1) as nat, count as nat);
                    }
                    return Err(e);
                },
            }
            i = i + 1;
        }
        Ok(bodies)
    }

    /// Reads `count` parts one after another.
    fn read_parts(&mut self, count: u64) -> (r: Result<Vec<Part>, MrrError>)
        requires
            old(self).wf(),
        ensures
            old(self).moves_to(*final(self)),
            match repeat(part_item(old(self).input_view()), old(self).offset(), count as nat) {
                Ok((xs, e)) => r matches Ok(v) && part_views(v@) == xs && final(self).offset() == e,
                Err(e) => r == Err::<Vec<Part>, MrrError>(e),
            },
    {
        let ghost s = self.input_view();
        let ghost start = self.offset();
        let mut parts: Vec<Part> = Vec::new();
        assert(part_views(parts@) =~= Seq::empty());
        let mut i: u64 = 0;
        while i < count
            invariant
                old(self).moves_to(*self),
                s == old(self).input_view(),
                start == old(self).offset(),
                i <= count,
                repeat(part_item(s), start, i as nat) == Ok::<(Seq<PartView>, int), MrrError>(
                    (part_views(parts@), self.offset()),
                ),
            decreases count - i,
        {
            match self.read_part() {
                Ok(part) => {
                    proof {
                        assert(part_views(parts@.push(part)) =~= part_views(parts@).push(part@));
                    }
                    parts.push(part);
                },
                Err(e) => {
                    proof {
                        lemma_repeat_stops(part_item(s), start, (i + 1) as nat, count as nat);
                    }
                    return Err(e);
                },
            }
            i = i + 1;
        }
        Ok(parts)
    }

    /// Decodes the whole buffer: signature, counted joints, counted parts.
    /// Fails with the first error met; nothing decoded so far is returned then.
    pub fn deserialize_assembly(&mut self) -> (r: Result<Assembly, MrrError>)
        requires
            old(self).wf(),
            old(self).offset() == 0,
        ensures
            old(self).moves_to(*final(self)),
            agrees(assembly_at(old(self).input_view()), view_of(r), final(self).offset()),
            !has_signature(old(self).input_view()) ==> final(self).offset() == 0,
    {
        self.check_signature()?;
        let joint_count = self.read_length()?;
        let joints = self.read_joints(joint_count)?;
        let part_count = self.read_length()?;
        let parts = self.read_parts(part_count)?;
        Ok(Assembly { joints, parts })
    }
}

/// Decodes an MRR buffer into an assembly, or gives the first error met.
pub fn decode(bytes: Vec<u8>) -> (r: Result<Assembly, MrrError>)
    ensures
        view_of(r) == decoded(bytes@),
{
    let mut session = MrrDeserializer::new(bytes);
    session.deserialize_assembly()
}

} // verus!
