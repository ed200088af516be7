use vstd::prelude::*;

verus! {

/// The size of the terminal window, in columns and rows.
pub struct Terminal {
    pub width: usize,
    pub height: usize,
}

impl Terminal {
    /// A terminal of the given size.
    pub fn new(width: usize, height: usize) -> (r: Terminal)
        ensures
            r.width == width,
            r.height == height,
    {
        Terminal { width, height }
    }

    pub fn get_width(&self) -> (r: usize)
        ensures
            r == self.width,
    {
        self.width
    }

    pub fn get_height(&self) -> (r: usize)
        ensures
            r == self.height,
    {
        self.height
    }

    /// Records the size just measured; returns whether it differs from the one held.
    pub fn update(&mut self, width: usize, height: usize) -> (updated: bool)
        ensures
            updated == (width != old(self).width || height != old(self).height),
            final(self).width == width,
            final(self).height == height,
    {
        let updated = width != self.width || height != self.height;
        self.width = width;
        self.height = height;
        updated
    }
}

/// A rectangle of the terminal: top-left corner and size.
#[derive(Debug, PartialEq, Eq, Clone, Copy, Structural)]
pub struct Component {
    pub x: usize,
    pub y: usize,
    pub width: usize,
    pub height: usize,
}

impl Component {
    pub fn new(x: usize, y: usize, width: usize, height: usize) -> (r: Component)
        ensures
            r == (Component { x, y, width, height }),
    {
        Component { x, y, width, height }
    }

    pub fn set_size(&mut self, x: usize, y: usize, width: usize, height: usize)
        ensures
            *final(self) == (Component { x, y, width, height }),
    {
        self.x = x;
        self.y = y;
        self.width = width;
        self.height = height;
    }

    pub fn x(&self) -> (r: usize)
        ensures
            r == self.x,
    {
        self.x
    }

    pub fn y(&self) -> (r: usize)
        ensures
            r == self.y,
    {
        self.y
    }

    pub fn width(&self) -> (r: usize)
        ensures
            r == self.width,
    {
        self.width
    }

    pub fn height(&self) -> (r: usize)
        ensures
            r == self.height,
    {
        self.height
    }
}

impl Default for Component {
    /// The empty rectangle at the origin.
    fn default() -> (r: Component)
        ensures
            r == (Component { x: 0, y: 0, width: 0, height: 0 }),
    {
        Component::new(0, 0, 0, 0)
    }
}

} // verus!
