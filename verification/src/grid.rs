//! A rectangular grid of character cells, stored row by row.
//!
//! The character `'\0'` is the transparent sentinel: it marks a cell with no
//! content, as opposed to a visible space character.

use vstd::prelude::*;

verus! {

/// The grid `g` has exactly `h` rows of exactly `w` cells each.
pub open spec fn grid_dims(g: Seq<Seq<char>>, h: int, w: int) -> bool {
    &&& g.len() == h
    &&& forall|y: int| 0 <= y < h ==> (#[trigger] g[y]).len() == w
}

/// The grid `g` with the single cell at row `y`, column `x` replaced by `c`.
pub open spec fn grid_set(g: Seq<Seq<char>>, y: int, x: int, c: char) -> Seq<Seq<char>> {
    g.update(y, g[y].update(x, c))
}

/// Every cell of `g` holds `c`.
pub open spec fn grid_filled(g: Seq<Seq<char>>, c: char) -> bool {
    forall|y: int, x: int| 0 <= y < g.len() && 0 <= x < g[y].len() ==> g[y][x] == c
}

/// The deep view of a vector of rows is the sequence of the rows' views.
pub broadcast proof fn lemma_grid_deep_view(v: Vec<Vec<char>>, y: int)
    requires
        0 <= y < v@.len(),
    ensures
        #[trigger] v.deep_view()[y] == v@[y]@,
        v.deep_view().len() == v@.len(),
{
    assert(v@[y].deep_view() =~= v@[y]@);
}

/// Allocate a grid of `height` rows and `width` columns, every cell `fill`.
pub fn blank_grid(height: usize, width: usize, fill: char) -> (g: Vec<Vec<char>>)
    ensures
        grid_dims(g.deep_view(), height as int, width as int),
        grid_filled(g.deep_view(), fill),
{
    let mut g: Vec<Vec<char>> = Vec::new();
    for y in 0..height
        invariant
            g@.len() == y,
            forall|i: int| 0 <= i < y ==> (#[trigger] g@[i])@.len() == width,
            forall|i: int, j: int|
                0 <= i < y && 0 <= j < width ==> #[trigger] g@[i]@[j] == fill,
    {
        let mut row: Vec<char> = Vec::new();
        for x in 0..width
            invariant
                row@.len() == x,
                forall|j: int| 0 <= j < x ==> row@[j] == fill,
        {
            row.push(fill);
        }
        g.push(row);
    }
    proof {
        assert forall|y: int| 0 <= y < height implies (#[trigger] g.deep_view()[y]).len()
            == width by {
            lemma_grid_deep_view(g, y);
        }
        assert forall|y: int, x: int|
            0 <= y < g.deep_view().len() && 0 <= x < g.deep_view()[y].len() implies g.deep_view()[y][x]
            == fill by {
            lemma_grid_deep_view(g, y);
        }
    }
    g
}

/// Write one cell of the grid.
pub fn grid_put(g: &mut Vec<Vec<char>>, y: usize, x: usize, c: char)
    requires
        y < old(g).deep_view().len(),
        x < old(g).deep_view()[y as int].len(),
    ensures
        final(g).deep_view() == grid_set(old(g).deep_view(), y as int, x as int, c),
{
    proof {
        lemma_grid_deep_view(*old(g), y as int);
    }
    g[y][x] = c;
    proof {
        lemma_grid_deep_view(*old(g), y as int);
        lemma_grid_deep_view(*g, y as int);
        assert forall|i: int| 0 <= i < g@.len() && i != y implies #[trigger] g.deep_view()[i]
            == old(g).deep_view()[i] by {
            lemma_grid_deep_view(*old(g), i);
            lemma_grid_deep_view(*g, i);
        }
        assert(g.deep_view() =~~= grid_set(old(g).deep_view(), y as int, x as int, c));
    }
}

/// Read one cell of the grid.
pub fn grid_get(g: &Vec<Vec<char>>, y: usize, x: usize) -> (c: char)
    requires
        y < g.deep_view().len(),
        x < g.deep_view()[y as int].len(),
    ensures
        c == g.deep_view()[y as int][x as int],
{
    proof {
        lemma_grid_deep_view(*g, y as int);
    }
    g[y][x]
}

} // verus!
