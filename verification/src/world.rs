//! The viewport: which part of the world a screen shows.

use vstd::prelude::*;

verus! {

/// A screen of `screen_width` by `screen_height` cells whose centre shows
/// the world position `camera_attach`. World y grows upwards, screen y
/// downwards.
#[derive(Debug)]
pub struct World {
    camera_attach: (i64, i64),
    screen_width: usize,
    screen_height: usize,
}

impl World {
    /// The world position that the centre of the screen shows.
    pub closed spec fn spec_camera(&self) -> (i64, i64) {
        self.camera_attach
    }

    /// The width of the screen.
    pub closed spec fn spec_width(&self) -> usize {
        self.screen_width
    }

    /// The height of the screen.
    pub closed spec fn spec_height(&self) -> usize {
        self.screen_height
    }

    /// The world x of the screen's left column.
    pub open spec fn left(&self) -> int {
        self.spec_camera().0 - self.spec_width() / 2
    }

    /// The world y of the screen's top row.
    pub open spec fn top(&self) -> int {
        self.spec_camera().1 + self.spec_height() / 2
    }

    /// The screen cell that shows a world position, where the screen does.
    pub open spec fn screen_of(&self, world_x: int, world_y: int) -> Option<(int, int)> {
        let x = world_x - self.left();
        let y = self.top() - world_y;
        if 0 <= x < self.spec_width() && 0 <= y < self.spec_height() {
            Some((x, y))
        } else {
            None
        }
    }

    /// The world position that a screen cell shows; the cell may lie off
    /// the screen.
    pub open spec fn world_of(&self, screen_x: int, screen_y: int) -> (int, int) {
        (self.left() + screen_x, self.top() - screen_y)
    }

    /// A screen without extent whose camera is at the world's origin.
    pub fn new() -> (world: Self)
        ensures
            world.spec_camera() == (0i64, 0i64),
            world.spec_width() == 0,
            world.spec_height() == 0,
    {
        World { camera_attach: (0, 0), screen_width: 0, screen_height: 0 }
    }

    /// Puts the centre of the screen at the world position `(x, y)`.
    pub fn attach_camera(&mut self, x: i64, y: i64)
        ensures
            final(self).spec_camera() == (x, y),
            final(self).spec_width() == old(self).spec_width(),
            final(self).spec_height() == old(self).spec_height(),
    {
        self.camera_attach = (x, y);
    }

    /// Gives the screen a new extent.
    pub fn resize(&mut self, width: usize, height: usize)
        ensures
            final(self).spec_camera() == old(self).spec_camera(),
            final(self).spec_width() == width,
            final(self).spec_height() == height,
    {
        self.screen_width = width;
        self.screen_height = height;
    }

    /// The world position that the centre of the screen shows.
    pub fn camera(&self) -> (position: (i64, i64))
        ensures
            position == self.spec_camera(),
    {
        self.camera_attach
    }

    /// The width of the screen.
    pub fn width(&self) -> (width: usize)
        ensures
            width == self.spec_width(),
    {
        self.screen_width
    }

    /// The height of the screen.
    pub fn height(&self) -> (height: usize)
        ensures
            height == self.spec_height(),
    {
        self.screen_height
    }

    /// Maps a world position to the screen cell that shows it, or to
    /// `None` where it lies off the screen.
    pub fn to_screen_pos(&self, world_x: i64, world_y: i64) -> (cell: Option<(usize, usize)>)
        ensures
            match cell {
                Some((x, y)) => self.screen_of(world_x as int, world_y as int) == Some(
                    (x as int, y as int),
                ),
                None => self.screen_of(world_x as int, world_y as int) is None,
            },
    {
        let left: i128 = self.camera_attach.0 as i128 - (self.screen_width / 2) as i128;
        let top: i128 = self.camera_attach.1 as i128 + (self.screen_height / 2) as i128;
        let x: i128 = world_x as i128 - left;
        let y: i128 = top - world_y as i128;
        if x < 0 || y < 0 {
            return None;
        }
        if x >= self.screen_width as i128 || y >= self.screen_height as i128 {
            return None;
        }
        Some((x as usize, y as usize))
    }

    /// Maps a screen cell, on the screen or off it, to the world position
    /// that it shows.
    pub fn to_world_pos(&self, screen_x: i64, screen_y: i64) -> (position: (i64, i64))
        requires
            i64::MIN <= self.world_of(screen_x as int, screen_y as int).0 <= i64::MAX,
            i64::MIN <= self.world_of(screen_x as int, screen_y as int).1 <= i64::MAX,
        ensures
            (position.0 as int, position.1 as int) == self.world_of(
                screen_x as int,
                screen_y as int,
            ),
    {
        let left: i128 = self.camera_attach.0 as i128 - (self.screen_width / 2) as i128;
        let top: i128 = self.camera_attach.1 as i128 + (self.screen_height / 2) as i128;
        let x: i128 = left + screen_x as i128;
        let y: i128 = top - screen_y as i128;
        (x as i64, y as i64)
    }
}

/// The two mappings agree: a world position that the screen shows is the
/// one that its screen cell maps back to.
pub proof fn lemma_screen_cell_maps_back(world: World, world_x: int, world_y: int)
    requires
        world.screen_of(world_x, world_y) is Some,
    ensures
        ({
            let (x, y) = world.screen_of(world_x, world_y).unwrap();
            world.world_of(x, y) == (world_x, world_y)
        }),
{
}

impl Default for World {
    fn default() -> (world: Self)
        ensures
            world.spec_camera() == (0i64, 0i64),
            world.spec_width() == 0,
            world.spec_height() == 0,
    {
        World::new()
    }
}

} // verus!
