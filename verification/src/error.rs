//! Why a client's request is refused. A refused request ends the connection of the client.
use vstd::prelude::*;

verus! {

/// The reasons for which a request is refused.
#[derive(Debug, Clone, Copy, PartialEq, Eq, Structural)]
pub enum Error {
    BadMessage,
    UnknownObject,
    InvalidOpcode,
    ReservedObjectId { id: u32 },
    SkippedObjectId { id: u32 },
    OutOfServerIds,
    BindInvalidName,
    BindInvalidInterface,
    BindInvalidVersion,
    InvalidBufferScale,
    BufferSizeNotMultipleOfScale,
    ViewportSrcOutOfBuffer,
    ViewportSrcNotInt,
    InvalidViewportSrc,
    InvalidViewportDst,
    ViewportSurfaceDead,
    SurfaceHasViewport,
    SurfaceHasRole,
    DestroyedBeforeRole,
    AttachOffset,
    NotASibling,
    XdgSurfaceDestroyedBeforeRole,
    XdgSurfaceHasRole,
    XdgSurfacesRemain,
    WindowGeometryNotPositive,
    UnmappedSurfaceBuffer,
    InitialConfigureNotAcked,
    NoInitialBuffer,
    MaxSizeNegative,
    MinSizeNegative,
    PositionerInvalidSize,
    PositionerSizeNotSet,
    PositionerAnchorRectNotSet,
    PopupNotTop,
    PoolSizeNotPositive,
    UnsupportedShmFormat,
    ParamsUsed,
    PlaneIndexOutOfBounds,
    PlaneAlreadySet,
    NoPlanes,
    InvalidBufferSize,
    TouchNotSupported,
    UsedDataSource,
}

/// A digit.
pub open spec fn digit(n: u32) -> char {
    match n {
        0 => '0',
        1 => '1',
        2 => '2',
        3 => '3',
        4 => '4',
        5 => '5',
        6 => '6',
        7 => '7',
        8 => '8',
        _ => '9',
    }
}

/// A number in decimal digits.
pub open spec fn decimal(n: u32) -> Seq<char>
    decreases n,
{
    if n < 10 {
        seq![digit(n)]
    } else {
        decimal(n / 10).push(digit(n % 10))
    }
}

fn digit_text(n: u32) -> (r: &'static str)
    requires
        n < 10,
    ensures
        r@ == seq![digit(n)],
{
    proof {
        reveal_strlit("0");
        reveal_strlit("1");
        reveal_strlit("2");
        reveal_strlit("3");
        reveal_strlit("4");
        reveal_strlit("5");
        reveal_strlit("6");
        reveal_strlit("7");
        reveal_strlit("8");
        reveal_strlit("9");
    }
    let r = match n {
        0 => "0",
        1 => "1",
        2 => "2",
        3 => "3",
        4 => "4",
        5 => "5",
        6 => "6",
        7 => "7",
        8 => "8",
        _ => "9",
    };
    assert(r@ =~= seq![digit(n)]);
    r
}

fn append_decimal(text: &mut String, n: u32)
    ensures
        final(text)@ == old(text)@ + decimal(n),
    decreases n,
{
    let ghost before = text@;
    if n >= 10 {
        append_decimal(text, n / 10);
    }
    text.append(digit_text(n % 10));
    assert(text@ =~= before + decimal(n));
}

impl Error {
    /// The text that describes the error.
    pub open spec fn text(self) -> Seq<char> {
        match self {
            Error::BadMessage => "failed to parse message"@,
            Error::UnknownObject => "request for unknown object"@,
            Error::InvalidOpcode => "invalid request opcode"@,
            Error::ReservedObjectId { id } => "client used object id "@ + decimal(id)
                + " which is reserved for server-side objects"@,
            Error::SkippedObjectId { id } => "client used object id "@ + decimal(id) + " but "@ + decimal(
                id.wrapping_sub(1),
            ) + " was never used"@,
            Error::OutOfServerIds => "run out of server-side object ids"@,
            Error::BindInvalidName => "wl_registry::bind with invalid name"@,
            Error::BindInvalidInterface => "wl_registry::bind with invalid interface"@,
            Error::BindInvalidVersion => "wl_registry::bind with invalid version"@,
            Error::InvalidBufferScale => "invalid buffer scale"@,
            Error::BufferSizeNotMultipleOfScale => "buffer size not a multiple of scale"@,
            Error::ViewportSrcOutOfBuffer => "viewport src out of buffer"@,
            Error::ViewportSrcNotInt => "viewport dst not set, so src must by int"@,
            Error::InvalidViewportSrc => "invalid viewport src"@,
            Error::InvalidViewportDst => "invalid viewport dst"@,
            Error::ViewportSurfaceDead => "viweport: surface is dead"@,
            Error::SurfaceHasViewport => "surface already has a viewport"@,
            Error::SurfaceHasRole => "surface already has a role"@,
            Error::DestroyedBeforeRole => "destroying wl_surface before role object"@,
            Error::AttachOffset => "attach on wl_surface version >=5 must have x,y=0"@,
            Error::NotASibling => "place_above: surface not a sibling"@,
            Error::XdgSurfaceDestroyedBeforeRole => "xdg_surface destroyed before role"@,
            Error::XdgSurfaceHasRole => "xdg surface already has a role"@,
            Error::XdgSurfacesRemain => "destroying xdg_wm_base when there are still oplevels"@,
            Error::WindowGeometryNotPositive => "window geometry with non-positive dimensions"@,
            Error::UnmappedSurfaceBuffer => "unmapped surface commited a buffer"@,
            Error::InitialConfigureNotAcked => "did not ack the initial config"@,
            Error::NoInitialBuffer => "did not submit initial buffer"@,
            Error::MaxSizeNegative => "max size cannot be negative"@,
            Error::MinSizeNegative => "min size cannot be negative"@,
            Error::PositionerInvalidSize => "positioner: invalid size"@,
            Error::PositionerSizeNotSet => "positioner size not set"@,
            Error::PositionerAnchorRectNotSet => "positioner anchor rect not set"@,
            Error::PopupNotTop => "destroyed popup must be the top one"@,
            Error::PoolSizeNotPositive => "poll must be greater than zero"@,
            Error::UnsupportedShmFormat => "provided unsupported shm format"@,
            Error::ParamsUsed => "params already used"@,
            Error::PlaneIndexOutOfBounds => "plane index out of bounds"@,
            Error::PlaneAlreadySet => "plane with this index already set"@,
            Error::NoPlanes => "params with zero planes"@,
            Error::InvalidBufferSize => "invalid buffer size"@,
            Error::TouchNotSupported => "touch input not supporetd"@,
            Error::UsedDataSource => "used data usource"@,
        }
    }

    /// The text that describes the error.
    pub fn message(&self) -> (r: String)
        ensures
            r@ == self.text(),
    {
        let text: &'static str = match self {
            Error::ReservedObjectId { id } => {
                let mut text = String::from_str("client used object id ");
                append_decimal(&mut text, *id);
                text.append(" which is reserved for server-side objects");
                return text;
            },
            Error::SkippedObjectId { id } => {
                let mut text = String::from_str("client used object id ");
                append_decimal(&mut text, *id);
                text.append(" but ");
                append_decimal(&mut text, id.wrapping_sub(1));
                text.append(" was never used");
                return text;
            },
            Error::BadMessage => "failed to parse message",
            Error::UnknownObject => "request for unknown object",
            Error::InvalidOpcode => "invalid request opcode",
            Error::OutOfServerIds => "run out of server-side object ids",
            Error::BindInvalidName => "wl_registry::bind with invalid name",
            Error::BindInvalidInterface => "wl_registry::bind with invalid interface",
            Error::BindInvalidVersion => "wl_registry::bind with invalid version",
            Error::InvalidBufferScale => "invalid buffer scale",
            Error::BufferSizeNotMultipleOfScale => "buffer size not a multiple of scale",
            Error::ViewportSrcOutOfBuffer => "viewport src out of buffer",
            Error::ViewportSrcNotInt => "viewport dst not set, so src must by int",
            Error::InvalidViewportSrc => "invalid viewport src",
            Error::InvalidViewportDst => "invalid viewport dst",
            Error::ViewportSurfaceDead => "viweport: surface is dead",
            Error::SurfaceHasViewport => "surface already has a viewport",
            Error::SurfaceHasRole => "surface already has a role",
            Error::DestroyedBeforeRole => "destroying wl_surface before role object",
            Error::AttachOffset => "attach on wl_surface version >=5 must have x,y=0",
            Error::NotASibling => "place_above: surface not a sibling",
            Error::XdgSurfaceDestroyedBeforeRole => "xdg_surface destroyed before role",
            Error::XdgSurfaceHasRole => "xdg surface already has a role",
            Error::XdgSurfacesRemain => "destroying xdg_wm_base when there are still oplevels",
            Error::WindowGeometryNotPositive => "window geometry with non-positive dimensions",
            Error::UnmappedSurfaceBuffer => "unmapped surface commited a buffer",
            Error::InitialConfigureNotAcked => "did not ack the initial config",
            Error::NoInitialBuffer => "did not submit initial buffer",
            Error::MaxSizeNegative => "max size cannot be negative",
            Error::MinSizeNegative => "min size cannot be negative",
            Error::PositionerInvalidSize => "positioner: invalid size",
            Error::PositionerSizeNotSet => "positioner size not set",
            Error::PositionerAnchorRectNotSet => "positioner anchor rect not set",
            Error::PopupNotTop => "destroyed popup must be the top one",
            Error::PoolSizeNotPositive => "poll must be greater than zero",
            Error::UnsupportedShmFormat => "provided unsupported shm format",
            Error::ParamsUsed => "params already used",
            Error::PlaneIndexOutOfBounds => "plane index out of bounds",
            Error::PlaneAlreadySet => "plane with this index already set",
            Error::NoPlanes => "params with zero planes",
            Error::InvalidBufferSize => "invalid buffer size",
            Error::TouchNotSupported => "touch input not supporetd",
            Error::UsedDataSource => "used data usource",
        };
        String::from_str(text)
    }
}

} // verus!
