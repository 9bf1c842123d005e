//! Popups.
use vstd::prelude::*;

use crate::globals::xdg_shell::positioner::Positioner;
use crate::protocol::{Action, Handle};

verus! {

/// A popup.
#[derive(Debug)]
pub struct XdgPopupRole {
    pub wl: Handle,
    /// The surface of the parent, and the window that it was when the popup was made.
    pub parent: usize,
    pub parent_wl: Handle,
    pub positioner: Positioner,
    pub grab: bool,
    pub next_configure_serial: u32,
    pub last_serial: u32,
    pub x: i32,
    pub y: i32,
}

impl XdgPopupRole {
    /// A popup that was not placed yet.
    pub open spec fn fresh(wl: Handle, parent: usize, parent_wl: Handle, positioner: Positioner) -> XdgPopupRole {
        XdgPopupRole {
            wl,
            parent,
            parent_wl,
            positioner,
            grab: false,
            next_configure_serial: 0,
            last_serial: 0,
            x: 0,
            y: 0,
        }
    }

    /// A popup that was not placed yet.
    pub fn new(wl: Handle, parent: usize, parent_wl: Handle, positioner: Positioner) -> (r: Self)
        ensures
            r == XdgPopupRole::fresh(wl, parent, parent_wl, positioner),
    {
        Self { wl, parent, parent_wl, positioner, grab: false, next_configure_serial: 0, last_serial: 0, x: 0, y: 0 }
    }

    /// The popup after the client was told where it is placed.
    pub open spec fn configured(self) -> XdgPopupRole {
        XdgPopupRole {
            last_serial: self.next_configure_serial,
            next_configure_serial: self.next_configure_serial.wrapping_add(1),
            x: self.positioner.position().0,
            y: self.positioner.position().1,
            ..self
        }
    }

    /// The events that tell the client where the popup is placed.
    pub open spec fn configure_events(self, xdg_surface: Handle) -> Seq<Action> {
        let (x, y) = self.positioner.position();
        seq![
            Action::PopupConfigure {
                popup: self.wl,
                x,
                y,
                width: self.positioner.size.0 as i32,
                height: self.positioner.size.1 as i32,
            },
            Action::XdgSurfaceConfigure { xdg_surface, serial: self.next_configure_serial },
        ]
    }

    /// Places the popup and tells the client.
    pub fn configure(&mut self, xdg_surface: Handle, actions: &mut Vec<Action>)
        ensures
            *final(self) == old(self).configured(),
            final(actions)@ == old(actions)@ + old(self).configure_events(xdg_surface),
    {
        let ghost before = actions@;
        let serial: u32 = self.next_configure_serial;
        self.last_serial = serial;
        self.next_configure_serial = serial.wrapping_add(1);
        let width: u32 = self.positioner.size.0;
        let height: u32 = self.positioner.size.1;
        let (x, y) = self.positioner.get_position();
        self.x = x;
        self.y = y;
        actions.push(Action::PopupConfigure { popup: self.wl, x, y, width: width as i32, height: height as i32 });
        actions.push(Action::XdgSurfaceConfigure { xdg_surface, serial });
        assert(actions@ =~= before + old(self).configure_events(xdg_surface));
    }
}

} // verus!
