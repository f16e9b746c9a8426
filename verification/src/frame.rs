//! CAN 2.0 frames: what a frame is, and the interface every frame type offers.

use crate::id::Id;
use vstd::prelude::*;

verus! {

/// Most bytes a frame carries, and the largest data length code.
pub const MAX_DLC: usize = 8;

/// A frame as a mathematical value.
pub struct FrameView {
    /// The identifier the frame is sent under.
    pub id: Id,
    /// Whether the frame asks for data instead of carrying it.
    pub remote: bool,
    /// The data length code.
    pub dlc: nat,
    /// The payload; empty for a remote frame.
    pub data: Seq<u8>,
}

impl FrameView {
    /// The data frame that carries `data` under `id`.
    pub open spec fn data_frame(id: Id, data: Seq<u8>) -> FrameView {
        FrameView { id, remote: false, dlc: data.len(), data }
    }

    /// The remote frame that asks for `dlc` bytes under `id`.
    pub open spec fn remote_frame(id: Id, dlc: nat) -> FrameView {
        FrameView { id, remote: true, dlc, data: Seq::empty() }
    }

    /// What holds of every frame: a valid identifier, a data length code of at
    /// most eight, a payload as long as the code says for a data frame and no
    /// payload for a remote frame.
    pub open spec fn well_formed(self) -> bool {
        &&& self.id.is_valid()
        &&& self.dlc <= MAX_DLC
        &&& self.data.len() == if self.remote { 0 } else { self.dlc }
    }
}

/// A CAN 2.0 frame.
pub trait Frame: Sized {
    /// The frame as a mathematical value.
    spec fn view(&self) -> FrameView;

    /// Creates a new data frame.
    ///
    /// Fails exactly when the identifier is not valid or `data` is longer than
    /// eight bytes.
    fn new(id: Id, data: &[u8]) -> (made: Result<Self, ()>)
        ensures
            made is Ok <==> id.is_valid() && data@.len() <= MAX_DLC,
            made matches Ok(frame) ==> {
                &&& frame@ == FrameView::data_frame(id, data@)
                &&& frame@.well_formed()
                &&& frame@.id == id
                &&& !frame@.remote
                &&& frame@.dlc == data@.len()
                &&& frame@.data == data@
            },
    ;

    /// Creates a new remote frame (RTR bit set).
    ///
    /// Fails exactly when the identifier is not valid or `dlc` is greater than
    /// eight.
    fn new_remote(id: Id, dlc: usize) -> (made: Result<Self, ()>)
        ensures
            made is Ok <==> id.is_valid() && dlc <= MAX_DLC,
            made matches Ok(frame) ==> {
                &&& frame@ == FrameView::remote_frame(id, dlc as nat)
                &&& frame@.well_formed()
                &&& frame@.id == id
                &&& frame@.remote
                &&& frame@.dlc == dlc
                &&& frame@.data.len() == 0
            },
    ;

    /// Returns true if this frame is an extended frame.
    fn is_extended(&self) -> (yes: bool)
        ensures
            yes == (self@.id is Extended),
    ;

    /// Returns true if this frame is a standard frame.
    fn is_standard(&self) -> (yes: bool)
        ensures
            yes == (self@.id is Standard),
            yes == !(self@.id is Extended),
    {
        !self.is_extended()
    }

    /// Returns true if this frame is a remote frame.
    fn is_remote_frame(&self) -> (yes: bool)
        ensures
            yes == self@.remote,
    ;

    /// Returns true if this frame is a data frame.
    fn is_data_frame(&self) -> (yes: bool)
        ensures
            yes == !self@.remote,
    {
        !self.is_remote_frame()
    }

    /// Returns the frame identifier, which is valid.
    fn id(&self) -> (id: Id)
        ensures
            id == self@.id,
            id.is_valid(),
    ;

    /// Returns the data length code (DLC), which is in the range `0..=8`.
    ///
    /// For data frames the DLC always matches the length of the data.
    /// Remote frames do not carry any data, yet the DLC can be greater than 0.
    fn dlc(&self) -> (dlc: usize)
        ensures
            dlc == self@.dlc,
            dlc <= MAX_DLC,
    ;

    /// Returns the frame data (`0..=8` bytes in length): as many bytes as the
    /// DLC says for a data frame, none for a remote frame.
    fn data(&self) -> (data: &[u8])
        ensures
            data@ == self@.data,
            data@.len() == if self@.remote { 0 } else { self@.dlc },
    ;
}

/// A frame held by value: identifier, kind, data length code and up to eight
/// bytes.
#[derive(Debug, Copy, Clone, PartialEq, Eq)]
pub struct CanFrame {
    id: Id,
    remote: bool,
    dlc: usize,
    bytes: [u8; 8],
}

impl CanFrame {
    /// Number of bytes of `bytes` that are payload.
    spec fn payload_len(&self) -> int {
        if self.remote { 0 } else { self.dlc as int }
    }

    #[verifier::type_invariant]
    spec fn valid_layout(&self) -> bool {
        &&& self.id.is_valid()
        &&& self.dlc <= MAX_DLC
        &&& forall|i: int| self.payload_len() <= i < 8 ==> self.bytes[i] == 0
    }
}

impl Frame for CanFrame {
    closed spec fn view(&self) -> FrameView {
        FrameView {
            id: self.id,
            remote: self.remote,
            dlc: self.dlc as nat,
            data: self.bytes@.subrange(0, self.payload_len()),
        }
    }

    fn new(id: Id, data: &[u8]) -> (made: Result<Self, ()>) {
        if !id.valid() || data.len() > MAX_DLC {
            return Err(());
        }
        let mut bytes: [u8; 8] = [0, 0, 0, 0, 0, 0, 0, 0];
        let mut i: usize = 0;
        while i < data.len()
            invariant
                i <= data@.len() <= 8,
                forall|j: int| 0 <= j < i ==> bytes[j] == data@[j],
                forall|j: int| i <= j < 8 ==> bytes[j] == 0,
            decreases data@.len() - i,
        {
            bytes[i] = data[i];
            i += 1;
        }
        let frame = CanFrame { id, remote: false, dlc: data.len(), bytes };
        assert(frame@.data =~= data@);
        Ok(frame)
    }

    fn new_remote(id: Id, dlc: usize) -> (made: Result<Self, ()>) {
        if !id.valid() || dlc > MAX_DLC {
            return Err(());
        }
        let frame = CanFrame { id, remote: true, dlc, bytes: [0, 0, 0, 0, 0, 0, 0, 0] };
        assert(frame@.data =~= Seq::<u8>::empty());
        Ok(frame)
    }

    fn is_extended(&self) -> (yes: bool) {
        match self.id {
            Id::Standard(_) => false,
            Id::Extended(_) => true,
        }
    }

    fn is_remote_frame(&self) -> (yes: bool) {
        self.remote
    }

    fn id(&self) -> (id: Id) {
        proof {
            use_type_invariant(self);
        }
        self.id
    }

    fn dlc(&self) -> (dlc: usize) {
        proof {
            use_type_invariant(self);
        }
        self.dlc
    }

    fn data(&self) -> (data: &[u8]) {
        proof {
            use_type_invariant(self);
        }
        let len: usize = if self.remote { 0 } else { self.dlc };
        vstd::slice::slice_subrange(self.bytes.as_slice(), 0, len)
    }
}

} // verus!
