//! Buffers in graphics memory.
use vstd::prelude::*;

use std::collections::HashMap;

use crate::eglgbm::gbm::{join_modifier, modifier_of_halves};
use crate::eglgbm::Fourcc;
use crate::error::Error;
use crate::globals::shm::{handles_without, remove_handle};
use crate::protocol::Handle;

verus! {

broadcast use vstd::std_specs::hash::group_hash_axioms;

/// A plane of a buffer in graphics memory. The descriptor is known by its number.
#[derive(Debug, Clone, Copy, PartialEq, Eq, Structural)]
pub struct Plane {
    pub fd: i32,
    pub offset: u32,
    pub stride: u32,
    pub modifier: u64,
}

/// The planes of a buffer that is to be made.
#[derive(Debug, Clone, Copy, PartialEq, Eq, Structural)]
pub struct Params {
    pub used: bool,
    pub plane0: Option<Plane>,
    pub plane1: Option<Plane>,
    pub plane2: Option<Plane>,
    pub plane3: Option<Plane>,
}

impl Params {
    /// The plane with an index.
    pub open spec fn plane(self, i: u32) -> Option<Plane> {
        if i == 0 {
            self.plane0
        } else if i == 1 {
            self.plane1
        } else if i == 2 {
            self.plane2
        } else {
            self.plane3
        }
    }

    /// The planes with another one at an index.
    pub open spec fn with_plane(self, i: u32, plane: Plane) -> Params {
        if i == 0 {
            Params { plane0: Some(plane), ..self }
        } else if i == 1 {
            Params { plane1: Some(plane), ..self }
        } else if i == 2 {
            Params { plane2: Some(plane), ..self }
        } else {
            Params { plane3: Some(plane), ..self }
        }
    }

    /// The planes that are set, in the order of their indices.
    pub open spec fn planes(self) -> Seq<Plane> {
        some_plane(self.plane0) + some_plane(self.plane1) + some_plane(self.plane2) + some_plane(self.plane3)
    }
}

/// A plane, if it is set.
pub open spec fn some_plane(plane: Option<Plane>) -> Seq<Plane> {
    match plane {
        Some(plane) => seq![plane],
        None => Seq::empty(),
    }
}

/// What a buffer in graphics memory is made of.
#[derive(Debug)]
pub struct DmaBufSpec {
    pub width: u32,
    pub height: u32,
    pub format: Fourcc,
    pub planes: Vec<Plane>,
}

/// What a [`DmaBufSpec`] says.
#[verifier::ext_equal]
pub struct DmaBufSpecV {
    pub width: u32,
    pub height: u32,
    pub format: Fourcc,
    pub planes: Seq<Plane>,
}

impl View for DmaBufSpec {
    type V = DmaBufSpecV;

    open spec fn view(&self) -> DmaBufSpecV {
        DmaBufSpecV { width: self.width, height: self.height, format: self.format, planes: self.planes@ }
    }
}

/// The buffers in graphics memory that a client has or is about to make.
#[derive(Debug)]
pub struct LinuxDmabuf {
    params: HashMap<u64, Params>,
    buffers: Vec<Handle>,
}

/// What a [`LinuxDmabuf`] says.
#[verifier::ext_equal]
pub struct LinuxDmabufV {
    pub params: Map<u64, Params>,
    pub buffers: Seq<Handle>,
}

impl View for LinuxDmabuf {
    type V = LinuxDmabufV;

    closed spec fn view(&self) -> LinuxDmabufV {
        LinuxDmabufV { params: self.params@, buffers: self.buffers@ }
    }
}

/// The plane that a client adds.
#[derive(Debug, Clone, Copy, PartialEq, Eq, Structural)]
pub struct AddArgs {
    pub fd: i32,
    pub plane_idx: u32,
    pub offset: u32,
    pub stride: u32,
    pub modifier_hi: u32,
    pub modifier_lo: u32,
}

impl AddArgs {
    /// The plane.
    pub open spec fn plane(self) -> Plane {
        Plane {
            fd: self.fd,
            offset: self.offset,
            stride: self.stride,
            modifier: modifier_of_halves(self.modifier_hi, self.modifier_lo),
        }
    }
}

/// The planes of a buffer after one was added, or the rule that adding it breaks.
pub open spec fn plane_added(p: Params, args: AddArgs) -> Result<Params, Error> {
    if p.used {
        Err(Error::ParamsUsed)
    } else if args.plane_idx > 3 {
        Err(Error::PlaneIndexOutOfBounds)
    } else if p.plane(args.plane_idx) is Some {
        Err(Error::PlaneAlreadySet)
    } else {
        Ok(p.with_plane(args.plane_idx, args.plane()))
    }
}

/// The buffer that is made of planes, or the rule that making it breaks.
pub open spec fn buffer_made(p: Params, width: i32, height: i32, format: u32) -> Result<DmaBufSpecV, Error> {
    if p.used {
        Err(Error::ParamsUsed)
    } else if p.planes().len() == 0 {
        Err(Error::NoPlanes)
    } else if width < 1 || height < 1 {
        Err(Error::InvalidBufferSize)
    } else {
        Ok(DmaBufSpecV { width: width as u32, height: height as u32, format: Fourcc(format), planes: p.planes() })
    }
}

/// Planes that were used.
pub open spec fn params_used() -> Params {
    Params { used: true, plane0: None, plane1: None, plane2: None, plane3: None }
}

fn push_plane(planes: &mut Vec<Plane>, plane: Option<Plane>)
    ensures
        final(planes)@ == old(planes)@ + some_plane(plane),
{
    let ghost before = planes@;
    if let Some(plane) = plane {
        planes.push(plane);
    }
    assert(planes@ =~= before + some_plane(plane));
}

impl LinuxDmabuf {
    /// No buffers.
    pub fn new() -> (r: Self)
        ensures
            r@ == (LinuxDmabufV { params: Map::empty(), buffers: Seq::empty() }),
    {
        Self { params: HashMap::new(), buffers: Vec::new() }
    }

    /// Handles the request to begin a buffer.
    pub fn create_params(&mut self, params: Handle)
        ensures
            final(self)@ == (LinuxDmabufV {
                params: old(self)@.params.insert(
                    params.key,
                    Params { used: false, plane0: None, plane1: None, plane2: None, plane3: None },
                ),
                ..old(self)@
            }),
    {
        self.params.insert(
            params.key,
            Params { used: false, plane0: None, plane1: None, plane2: None, plane3: None },
        );
    }

    /// Handles the request to forget a buffer that was begun.
    pub fn destroy_params(&mut self, params: Handle)
        ensures
            final(self)@ == (LinuxDmabufV { params: old(self)@.params.remove(params.key), ..old(self)@ }),
    {
        self.params.remove(&params.key);
    }

    /// Handles the request to add a plane.
    pub fn add_plane(&mut self, params: Handle, args: AddArgs) -> (r: Result<(), Error>)
        requires
            old(self)@.params.contains_key(params.key),
        ensures
            match plane_added(old(self)@.params[params.key], args) {
                Ok(p) => r == Ok::<(), Error>(()) && final(self)@ == (LinuxDmabufV {
                    params: old(self)@.params.insert(params.key, p),
                    ..old(self)@
                }),
                Err(e) => r == Err::<(), Error>(e) && final(self)@ == old(self)@,
            },
    {
        let p: Params = *self.params.get(&params.key).unwrap();
        if p.used {
            return Err(Error::ParamsUsed);
        }
        if args.plane_idx > 3 {
            return Err(Error::PlaneIndexOutOfBounds);
        }
        let plane = Plane {
            fd: args.fd,
            offset: args.offset,
            stride: args.stride,
            modifier: join_modifier(args.modifier_hi, args.modifier_lo),
        };
        let (taken, with) = match args.plane_idx {
            0 => (p.plane0.is_some(), Params { plane0: Some(plane), ..p }),
            1 => (p.plane1.is_some(), Params { plane1: Some(plane), ..p }),
            2 => (p.plane2.is_some(), Params { plane2: Some(plane), ..p }),
            _ => (p.plane3.is_some(), Params { plane3: Some(plane), ..p }),
        };
        if taken {
            return Err(Error::PlaneAlreadySet);
        }
        self.params.insert(params.key, with);
        Ok(())
    }

    /// Handles the request to make a buffer of the planes. Gives what it is made of. The planes
    /// cannot be used again.
    pub fn create_immed(
        &mut self,
        params: Handle,
        buffer: Handle,
        width: i32,
        height: i32,
        format: u32,
    ) -> (r: Result<DmaBufSpec, Error>)
        requires
            old(self)@.params.contains_key(params.key),
        ensures
            match buffer_made(old(self)@.params[params.key], width, height, format) {
                Ok(spec) => {
                    &&& r matches Ok(s) && s@ == spec
                    &&& final(self)@ == (LinuxDmabufV {
                        params: old(self)@.params.insert(params.key, params_used()),
                        buffers: old(self)@.buffers.push(buffer),
                    })
                },
                Err(e) => (r matches Err(f) && f == e) && final(self)@ == old(self)@,
            },
    {
        let p: Params = *self.params.get(&params.key).unwrap();
        if p.used {
            return Err(Error::ParamsUsed);
        }
        if p.plane0.is_none() && p.plane1.is_none() && p.plane2.is_none() && p.plane3.is_none() {
            assert(p.planes() =~= Seq::<Plane>::empty());
            return Err(Error::NoPlanes);
        }
        if width < 1 || height < 1 {
            return Err(Error::InvalidBufferSize);
        }
        let mut planes: Vec<Plane> = Vec::new();
        push_plane(&mut planes, p.plane0);
        push_plane(&mut planes, p.plane1);
        push_plane(&mut planes, p.plane2);
        push_plane(&mut planes, p.plane3);
        assert(planes@ =~= p.planes());
        self.params.insert(
            params.key,
            Params { used: true, plane0: None, plane1: None, plane2: None, plane3: None },
        );
        self.buffers.push(buffer);
        Ok(DmaBufSpec { width: width as u32, height: height as u32, format: Fourcc(format), planes })
    }

    /// Handles the request to destroy a buffer.
    pub fn wl_buffer_cb(&mut self, buffer: Handle)
        ensures
            final(self)@ == (LinuxDmabufV { buffers: handles_without(old(self)@.buffers, buffer), ..old(self)@ }),
    {
        remove_handle(&mut self.buffers, buffer);
    }

    /// The buffers that are left of a client that is gone.
    pub fn destroy(self) -> (r: Vec<Handle>)
        ensures
            r@ == self@.buffers,
    {
        self.buffers
    }
}

/// Planes make one buffer: after it was made, neither a plane can be added nor another buffer made.
pub proof fn law_params_used_once(args: AddArgs, width: i32, height: i32, format: u32)
    ensures
        plane_added(params_used(), args) == Err::<Params, Error>(Error::ParamsUsed),
        buffer_made(params_used(), width, height, format) == Err::<DmaBufSpecV, Error>(Error::ParamsUsed),
{
}

/// A plane that was added is a plane of the buffer that is made.
pub proof fn law_added_plane_is_in_buffer(p: Params, args: AddArgs, width: i32, height: i32, format: u32)
    requires
        plane_added(p, args) is Ok,
        width >= 1,
        height >= 1,
    ensures
        buffer_made(plane_added(p, args)->Ok_0, width, height, format) matches Ok(spec) && spec.planes.contains(
            args.plane(),
        ) && spec.planes.len() == p.planes().len() + 1,
{
    let q = plane_added(p, args)->Ok_0;
    let at = if args.plane_idx == 0 {
        0int
    } else if args.plane_idx == 1 {
        some_plane(q.plane0).len() as int
    } else if args.plane_idx == 2 {
        (some_plane(q.plane0) + some_plane(q.plane1)).len() as int
    } else {
        (some_plane(q.plane0) + some_plane(q.plane1) + some_plane(q.plane2)).len() as int
    };
    assert(q.planes()[at] == args.plane());
}

} // verus!
