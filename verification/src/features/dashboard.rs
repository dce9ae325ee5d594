//! Dashboard tab: a scroll offset and the keys that move it.
use crate::keys::{KeyCode, MouseEvent, MouseEventKind};
use vstd::prelude::*;

verus! {

pub struct DashboardModel {
    pub dashboard_scroll: u16,
}

pub open spec fn sat_add(a: u16, b: u16) -> u16 {
    if a + b > u16::MAX {
        u16::MAX
    } else {
        (a + b) as u16
    }
}

pub open spec fn sat_sub(a: u16, b: u16) -> u16 {
    if a < b {
        0
    } else {
        (a - b) as u16
    }
}

impl DashboardModel {
    pub fn new() -> (m: Self)
        ensures
            m.dashboard_scroll == 0,
    {
        Self { dashboard_scroll: 0 }
    }

    pub fn scroll_down(&mut self)
        ensures
            final(self).dashboard_scroll == sat_add(old(self).dashboard_scroll, 1),
    {
        self.dashboard_scroll = self.dashboard_scroll.saturating_add(1);
    }

    pub fn scroll_up(&mut self)
        ensures
            final(self).dashboard_scroll == sat_sub(old(self).dashboard_scroll, 1),
    {
        self.dashboard_scroll = self.dashboard_scroll.saturating_sub(1);
    }
}

pub struct DashboardController;

impl DashboardController {
    /// Down/`j` and Up/`k` scroll by one line, PageDown/PageUp by five.
    pub fn handle_key(key: KeyCode, model: &mut DashboardModel)
        ensures
            final(model).dashboard_scroll == match key {
                KeyCode::Down | KeyCode::Char('j') => sat_add(old(model).dashboard_scroll, 1),
                KeyCode::Up | KeyCode::Char('k') => sat_sub(old(model).dashboard_scroll, 1),
                KeyCode::PageDown => sat_add(old(model).dashboard_scroll, 5),
                KeyCode::PageUp => sat_sub(old(model).dashboard_scroll, 5),
                _ => old(model).dashboard_scroll,
            },
    {
        match key {
            KeyCode::Down | KeyCode::Char('j') => {
                model.scroll_down();
            },
            KeyCode::Up | KeyCode::Char('k') => {
                model.scroll_up();
            },
            KeyCode::PageDown => {
                model.dashboard_scroll = model.dashboard_scroll.saturating_add(5);
            },
            KeyCode::PageUp => {
                model.dashboard_scroll = model.dashboard_scroll.saturating_sub(5);
            },
            _ => {},
        }
    }

    /// The wheel scrolls by one line.
    pub fn handle_mouse(mouse: MouseEvent, model: &mut DashboardModel)
        ensures
            final(model).dashboard_scroll == match mouse.kind {
                MouseEventKind::ScrollDown => sat_add(old(model).dashboard_scroll, 1),
                MouseEventKind::ScrollUp => sat_sub(old(model).dashboard_scroll, 1),
                _ => old(model).dashboard_scroll,
            },
    {
        match mouse.kind {
            MouseEventKind::ScrollDown => {
                model.scroll_down();
            },
            MouseEventKind::ScrollUp => {
                model.scroll_up();
            },
            _ => {},
        }
    }
}

} // verus!
