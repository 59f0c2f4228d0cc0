use crate::binary64::{is_positive, positive};
use crate::clamped::{clamp, clamped_bytes};
use crate::escape::{
    escape_count, escape_count_from, escape_grid, escaped_at, lemma_escape_count_is_first_stop,
    orbit_at, stops_at,
};
use crate::shading::{image_byte, image_bytes, is_grid, shade_pixel, ShadingType};
use vstd::arithmetic::div_mod::lemma_fundamental_div_mod_converse;
use vstd::prelude::*;
use wasm_bindgen::Clamped;

verus! {

/// Why a configuration is refused.
#[derive(Clone, Copy, Debug, PartialEq, Eq, Structural)]
pub enum ConfigurationError {
    /// The grid would have no columns.
    ZeroWidth,
    /// The grid's columns would have no cells.
    ZeroHeight,
    /// No iteration would be allowed.
    ZeroMaxIterations,
    /// The zoom is not a value above zero.
    NonPositiveZoom,
}

/// What an engine is configured with. Every field starts at zero; the
/// viewport's three reals are held as binary64 encodings.
#[derive(Clone, Copy, Debug)]
pub struct MandelbrotBuilder {
    pub height: usize,
    pub width: usize,
    pub max_iterations: u32,
    pub shading_type: ShadingType,
    pub opacity: u8,
    pub zoom: u64,
    pub x_offset: u64,
    pub y_offset: u64,
}

impl MandelbrotBuilder {
    /// The reason for which the configuration is refused, if there is one:
    /// the first of width, height, iteration bound and zoom that is not
    /// above zero.
    pub open spec fn rejection(self) -> Option<ConfigurationError> {
        if self.width == 0 {
            Some(ConfigurationError::ZeroWidth)
        } else if self.height == 0 {
            Some(ConfigurationError::ZeroHeight)
        } else if self.max_iterations == 0 {
            Some(ConfigurationError::ZeroMaxIterations)
        } else if !is_positive(self.zoom) {
            Some(ConfigurationError::NonPositiveZoom)
        } else {
            None
        }
    }

    /// Width, height, iteration bound and zoom are all above zero.
    pub open spec fn valid(self) -> bool {
        &&& self.width > 0
        &&& self.height > 0
        &&& self.max_iterations > 0
        &&& is_positive(self.zoom)
    }

    /// Starts a configuration in which every number is zero, the reals
    /// included, and the shading combines colour and opacity.
    pub fn new() -> (r: Self)
        ensures
            r == (MandelbrotBuilder {
                height: 0,
                width: 0,
                max_iterations: 0,
                shading_type: ShadingType::OpacityAndColor,
                opacity: 0,
                zoom: 0,
                x_offset: 0,
                y_offset: 0,
            }),
    {
        MandelbrotBuilder {
            height: 0,
            width: 0,
            max_iterations: 0,
            shading_type: ShadingType::OpacityAndColor,
            opacity: 0,
            zoom: 0,
            x_offset: 0,
            y_offset: 0,
        }
    }

    /// Sets the number of cells in a column of the grid.
    pub fn height(self, height: usize) -> (r: Self)
        ensures
            r == (MandelbrotBuilder { height, ..self }),
    {
        MandelbrotBuilder { height, ..self }
    }

    /// Sets the number of columns of the grid.
    pub fn width(self, width: usize) -> (r: Self)
        ensures
            r == (MandelbrotBuilder { width, ..self }),
    {
        MandelbrotBuilder { width, ..self }
    }

    /// Sets the iteration bound.
    pub fn max_iterations(self, max_iterations: u32) -> (r: Self)
        ensures
            r == (MandelbrotBuilder { max_iterations, ..self }),
    {
        MandelbrotBuilder { max_iterations, ..self }
    }

    /// Sets the shading mode.
    pub fn shading_type(self, shading_type: ShadingType) -> (r: Self)
        ensures
            r == (MandelbrotBuilder { shading_type, ..self }),
    {
        MandelbrotBuilder { shading_type, ..self }
    }

    /// Sets the alpha of pixels whose count differs from the iteration bound.
    pub fn opacity(self, opacity: u8) -> (r: Self)
        ensures
            r == (MandelbrotBuilder { opacity, ..self }),
    {
        MandelbrotBuilder { opacity, ..self }
    }

    /// Sets the zoom, given as the binary64 encoding of a real.
    pub fn zoom(self, zoom: u64) -> (r: Self)
        ensures
            r == (MandelbrotBuilder { zoom, ..self }),
    {
        MandelbrotBuilder { zoom, ..self }
    }

    /// Sets the horizontal offset, given as the binary64 encoding of a real.
    pub fn x_offset(self, x_offset: u64) -> (r: Self)
        ensures
            r == (MandelbrotBuilder { x_offset, ..self }),
    {
        MandelbrotBuilder { x_offset, ..self }
    }

    /// Sets the vertical offset, given as the binary64 encoding of a real.
    pub fn y_offset(self, y_offset: u64) -> (r: Self)
        ensures
            r == (MandelbrotBuilder { y_offset, ..self }),
    {
        MandelbrotBuilder { y_offset, ..self }
    }

    /// Makes the engine for this configuration, or says why it is refused.
    pub fn build(self) -> (r: Result<Mandelbrot, ConfigurationError>)
        ensures
            match r {
                Ok(engine) => {
                    &&& self.rejection().is_none()
                    &&& engine.settings() == self
                    &&& engine.grid() == zero_grid(self.width as nat, self.height as nat)
                },
                Err(reason) => self.rejection() == Some(reason),
            },
    {
        Mandelbrot::init_with_props(self)
    }
}

/// A configuration is refused exactly when its width, height, iteration
/// bound or zoom is not above zero.
pub proof fn lemma_refused_iff_not_valid(m: MandelbrotBuilder)
    ensures
        m.rejection().is_none() <==> m.valid(),
        m.rejection() == Some(ConfigurationError::ZeroWidth) <==> m.width == 0,
        m.rejection() == Some(ConfigurationError::ZeroHeight) <==> m.width > 0 && m.height == 0,
        m.rejection() == Some(ConfigurationError::ZeroMaxIterations) <==> m.width > 0 && m.height
            > 0 && m.max_iterations == 0,
        m.rejection() == Some(ConfigurationError::NonPositiveZoom) <==> m.width > 0 && m.height > 0
            && m.max_iterations > 0 && !is_positive(m.zoom),
{
}

/// The grid in which every count is zero.
pub open spec fn zero_grid(width: nat, height: nat) -> Seq<Seq<u32>> {
    Seq::new(width, |i: int| Seq::new(height, |j: int| 0u32))
}

/// The engine: a configuration that no longer changes, and the grid of
/// escape counts last computed for it.
#[derive(Debug)]
pub struct Mandelbrot {
    plot: Vec<Vec<u32>>,
    height: usize,
    width: usize,
    max_iterations: u32,
    shading_type: ShadingType,
    opacity: u8,
    zoom: u64,
    x_offset: u64,
    y_offset: u64,
}

/// The model of a grid held column by column: each column's counts, in
/// order.
proof fn lemma_grid_columns(plot: Vec<Vec<u32>>)
    ensures
        plot.deep_view().len() == plot@.len(),
        forall|i: int| 0 <= i < plot@.len() ==> #[trigger] plot.deep_view()[i] == plot@[i]@,
{
    assert forall|i: int| 0 <= i < plot@.len() implies #[trigger] plot.deep_view()[i]
        == plot@[i]@ by {
        assert(plot@[i].deep_view() =~= plot@[i]@);
    }
}

/// A column of `height` zero counts.
fn zero_column(height: usize) -> (column: Vec<u32>)
    ensures
        column@ == Seq::new(height as nat, |j: int| 0u32),
{
    let mut column: Vec<u32> = Vec::new();
    let mut j: usize = 0;
    while j < height
        invariant
            j <= height,
            column@ == Seq::new(j as nat, |k: int| 0u32),
        decreases height - j,
    {
        column.push(0);
        assert(column@ =~= Seq::new((j + 1) as nat, |k: int| 0u32));
        j += 1;
    }
    column
}

impl Mandelbrot {
    /// The configuration is valid and the grid has its dimensions.
    #[verifier::type_invariant]
    spec fn well_formed(self) -> bool {
        &&& self.settings().valid()
        &&& is_grid(self.grid(), self.width as nat, self.height as nat)
    }

    /// The configuration that the engine was built with.
    pub closed spec fn settings(self) -> MandelbrotBuilder {
        MandelbrotBuilder {
            height: self.height,
            width: self.width,
            max_iterations: self.max_iterations,
            shading_type: self.shading_type,
            opacity: self.opacity,
            zoom: self.zoom,
            x_offset: self.x_offset,
            y_offset: self.y_offset,
        }
    }

    /// The grid of escape counts: `grid()[i][j]` belongs to pixel `(i, j)`.
    pub closed spec fn grid(self) -> Seq<Seq<u32>> {
        self.plot.deep_view()
    }

    /// The image that the current grid stands for.
    pub open spec fn image(self) -> Seq<u8> {
        image_bytes(
            self.grid(),
            self.settings().width as nat,
            self.settings().height as nat,
            self.settings().shading_type,
            self.settings().max_iterations as nat,
            self.settings().opacity,
        )
    }

    /// Makes an engine from a configuration, with a grid of zeros. A
    /// configuration whose width, height, iteration bound or zoom is not
    /// above zero is refused, with the first of these as the reason.
    pub fn init_with_props(m: MandelbrotBuilder) -> (r: Result<Mandelbrot, ConfigurationError>)
        ensures
            match r {
                Ok(engine) => {
                    &&& m.rejection().is_none()
                    &&& engine.settings() == m
                    &&& engine.grid() == zero_grid(m.width as nat, m.height as nat)
                },
                Err(reason) => m.rejection() == Some(reason),
            },
    {
        if m.width == 0 {
            return Err(ConfigurationError::ZeroWidth);
        }
        if m.height == 0 {
            return Err(ConfigurationError::ZeroHeight);
        }
        if m.max_iterations == 0 {
            return Err(ConfigurationError::ZeroMaxIterations);
        }
        if !positive(m.zoom) {
            return Err(ConfigurationError::NonPositiveZoom);
        }
        let mut plot: Vec<Vec<u32>> = Vec::new();
        let mut i: usize = 0;
        while i < m.width
            invariant
                i <= m.width,
                plot@.len() == i,
                forall|k: int|
                    0 <= k < i ==> (#[trigger] plot@[k])@ == Seq::new(
                        m.height as nat,
                        |j: int| 0u32,
                    ),
            decreases m.width - i,
        {
            let column = zero_column(m.height);
            plot.push(column);
            i += 1;
        }
        proof {
            lemma_grid_columns(plot);
            assert(plot.deep_view() =~= zero_grid(m.width as nat, m.height as nat));
        }
        Ok(
            Mandelbrot {
                plot,
                height: m.height,
                width: m.width,
                max_iterations: m.max_iterations,
                shading_type: m.shading_type,
                opacity: m.opacity,
                zoom: m.zoom,
                x_offset: m.x_offset,
                y_offset: m.y_offset,
            },
        )
    }

    /// The number of columns of the grid.
    pub fn width(&self) -> (r: usize)
        ensures
            r == self.settings().width,
            r > 0,
    {
        proof {
            use_type_invariant(self);
        }
        self.width
    }

    /// The number of cells in a column of the grid.
    pub fn height(&self) -> (r: usize)
        ensures
            r == self.settings().height,
            r > 0,
    {
        proof {
            use_type_invariant(self);
        }
        self.height
    }

    /// The iteration bound.
    pub fn max_iterations(&self) -> (r: u32)
        ensures
            r == self.settings().max_iterations,
            r > 0,
    {
        proof {
            use_type_invariant(self);
        }
        self.max_iterations
    }

    /// The shading mode.
    pub fn shading_type(&self) -> (r: ShadingType)
        ensures
            r == self.settings().shading_type,
    {
        self.shading_type
    }

    /// The alpha of pixels whose count differs from the iteration bound.
    pub fn opacity(&self) -> (r: u8)
        ensures
            r == self.settings().opacity,
    {
        self.opacity
    }

    /// The zoom, as the binary64 encoding of a real above zero.
    pub fn zoom(&self) -> (r: u64)
        ensures
            r == self.settings().zoom,
            is_positive(r),
    {
        proof {
            use_type_invariant(self);
        }
        self.zoom
    }

    /// The horizontal offset, as the binary64 encoding of a real.
    pub fn x_offset(&self) -> (r: u64)
        ensures
            r == self.settings().x_offset,
    {
        self.x_offset
    }

    /// The vertical offset, as the binary64 encoding of a real.
    pub fn y_offset(&self) -> (r: u64)
        ensures
            r == self.settings().y_offset,
    {
        self.y_offset
    }

    /// The grid of escape counts as last computed, all zeros before the
    /// first recomputation: `width` columns of `height` counts.
    pub fn plot(&self) -> (grid: &Vec<Vec<u32>>)
        ensures
            grid.deep_view() == self.grid(),
            is_grid(self.grid(), self.settings().width as nat, self.settings().height as nat),
    {
        proof {
            use_type_invariant(self);
        }
        &self.plot
    }

    /// Evaluates one point from the trace of its orbit, which records update
    /// by update whether the orbit lay outside the disc of radius two: the
    /// count goes up until the orbit has left or the count is past the
    /// iteration bound, and the test comes before the increment. The count
    /// can reach one past the bound, which must therefore lie below the
    /// largest value of its type.
    pub fn point_in_mandelbrot_set(&self, trace: &Vec<bool>) -> (count: u32)
        requires
            self.settings().max_iterations < u32::MAX,
        ensures
            count == escape_count(trace@, self.settings().max_iterations as nat),
            count <= self.settings().max_iterations + 1,
            count <= self.settings().max_iterations ==> escaped_at(trace@, count as int),
            forall|k: int| 0 <= k < count ==> !escaped_at(trace@, k),
    {
        let mut i: u32 = 0;
        loop
            invariant
                self.max_iterations < u32::MAX,
                i <= self.max_iterations + 1,
                escape_count_from(trace@, self.max_iterations as nat, i as nat) == escape_count(
                    trace@,
                    self.max_iterations as nat,
                ),
            ensures
                stops_at(trace@, self.max_iterations as nat, i as int),
            decreases self.max_iterations + 1 - i,
        {
            let escaped: bool = (i as usize) < trace.len() && trace[i as usize];
            if escaped || i > self.max_iterations {
                break ;
            }
            i += 1;
        }
        proof {
            lemma_escape_count_is_first_stop(trace@, self.max_iterations as nat);
        }
        i
    }

    /// What a recomputation does to an engine: the configuration stays, and
    /// the grid becomes the grid of escape counts of the traces handed in.
    pub open spec fn drawn(self, orbits: Seq<Seq<Seq<bool>>>, after: Mandelbrot) -> bool {
        &&& after.settings() == self.settings()
        &&& after.grid() == escape_grid(
            orbits,
            self.settings().width as nat,
            self.settings().height as nat,
            self.settings().max_iterations as nat,
        )
    }

    /// Recomputes the whole grid and hands it out. `orbits[i][j]` records,
    /// update by update, whether the orbit of pixel `(i, j)` lay outside the
    /// disc of radius two; each cell gets the escape count of its trace. The
    /// count can reach one past the iteration bound, which must therefore
    /// lie below the largest value of its type.
    pub fn draw(&mut self, orbits: &Vec<Vec<Vec<bool>>>) -> (grid: &Vec<Vec<u32>>)
        requires
            old(self).settings().max_iterations < u32::MAX,
        ensures
            old(self).drawn(orbits.deep_view(), *final(self)),
            grid.deep_view() == final(self).grid(),
            is_grid(
                final(self).grid(),
                old(self).settings().width as nat,
                old(self).settings().height as nat,
            ),
            forall|i: int, j: int|
                0 <= i < old(self).settings().width && 0 <= j < old(self).settings().height
                    ==> #[trigger] final(self).grid()[i][j] <= old(
                    self,
                ).settings().max_iterations + 1,
    {
        proof {
            use_type_invariant(&*self);
        }
        let ghost model = orbits.deep_view();
        let ghost max = self.max_iterations as nat;
        let ghost h = self.height as nat;
        let empty: Vec<bool> = Vec::new();
        let mut r: Vec<Vec<u32>> = Vec::new();
        let mut i: usize = 0;
        while i < self.width
            invariant
                model == orbits.deep_view(),
                max == self.max_iterations,
                max < u32::MAX,
                h == self.height,
                empty@.len() == 0,
                i <= self.width,
                r@.len() == i,
                forall|k: int|
                    0 <= k < i ==> (#[trigger] r@[k])@ == Seq::new(
                        h,
                        |j: int| escape_count(orbit_at(model, k, j), max) as u32,
                    ),
            decreases self.width - i,
        {
            let mut column: Vec<u32> = Vec::new();
            let mut j: usize = 0;
            while j < self.height
                invariant
                    model == orbits.deep_view(),
                    max == self.max_iterations,
                    max < u32::MAX,
                    h == self.height,
                    empty@.len() == 0,
                    i < self.width,
                    j <= self.height,
                    column@ == Seq::new(
                        j as nat,
                        |l: int| escape_count(orbit_at(model, i as int, l), max) as u32,
                    ),
                decreases self.height - j,
            {
                let count: u32 = if i < orbits.len() && j < orbits[i].len() {
                    assert(orbits@[i as int]@[j as int].deep_view() =~= orbits@[i as int]@[j as int]@);
                    self.point_in_mandelbrot_set(&orbits[i][j])
                } else {
                    assert(orbit_at(model, i as int, j as int) =~= empty@);
                    self.point_in_mandelbrot_set(&empty)
                };
                column.push(count);
                assert(column@ =~= Seq::new(
                    (j + 1) as nat,
                    |l: int| escape_count(orbit_at(model, i as int, l), max) as u32,
                ));
                j += 1;
            }
            r.push(column);
            i += 1;
        }
        proof {
            lemma_grid_columns(r);
            assert(r.deep_view() =~= escape_grid(model, self.width as nat, h, max));
            assert forall|a: int, b: int| 0 <= a < self.width && 0 <= b < h implies
                #[trigger] r.deep_view()[a][b] <= max + 1 by {
                lemma_escape_count_is_first_stop(orbit_at(model, a, b), max);
            }
        }
        self.plot = r;
        &self.plot
    }

    /// Derives the image from the current grid: red, green, blue and alpha
    /// for each pixel, in the order of the grid.
    pub fn get_image_data(&self) -> (data: Clamped<Vec<u8>>)
        ensures
            clamped_bytes(data) == self.image(),
            clamped_bytes(data).len() == self.settings().width * self.settings().height * 4,
    {
        proof {
            use_type_invariant(self);
        }
        let mut r: Vec<u8> = Vec::new();
        let ghost grid = self.grid();
        let ghost h = self.height as nat;
        let ghost max = self.max_iterations as nat;
        let mut i: usize = 0;
        while i < self.width
            invariant
                is_grid(grid, self.width as nat, h),
                grid == self.grid(),
                h == self.height,
                max == self.max_iterations,
                i <= self.width,
                r@.len() == i * h * 4,
                forall|k: int|
                    0 <= k < r@.len() ==> r@[k] == image_byte(
                        grid,
                        h,
                        self.shading_type,
                        max,
                        self.opacity,
                        k,
                    ),
            decreases self.width - i,
        {
            let mut j: usize = 0;
            while j < self.height
                invariant
                    is_grid(grid, self.width as nat, h),
                    grid == self.grid(),
                    h == self.height,
                    max == self.max_iterations,
                    i < self.width,
                    j <= self.height,
                    r@.len() == (i * h + j) * 4,
                    forall|k: int|
                        0 <= k < r@.len() ==> r@[k] == image_byte(
                            grid,
                            h,
                            self.shading_type,
                            max,
                            self.opacity,
                            k,
                        ),
                decreases self.height - j,
            {
                assert(grid[i as int].len() == h);
                let shade: u32 = self.plot[i][j];
                let px: [u8; 4] = shade_pixel(
                    self.shading_type,
                    shade,
                    self.max_iterations,
                    self.opacity,
                );
                let ghost before = r@;
                let ghost pixel = i * h + j;
                r.push(px[0]);
                r.push(px[1]);
                r.push(px[2]);
                r.push(px[3]);
                proof {
                    lemma_fundamental_div_mod_converse(pixel, h as int, i as int, j as int);
                    assert forall|k: int| 0 <= k < r@.len() implies r@[k] == image_byte(
                        grid,
                        h,
                        self.shading_type,
                        max,
                        self.opacity,
                        k,
                    ) by {
                        if k < before.len() {
                            assert(r@[k] == before[k]);
                        } else {
                            assert(k / 4 == pixel);
                            assert(grid[i as int][j as int] == shade);
                        }
                    }
                }
                j += 1;
            }
            proof {
                assert((i * h + h) * 4 == (i + 1) * h * 4) by (nonlinear_arith);
            }
            i += 1;
        }
        proof {
            assert(r@ =~= self.image());
        }
        clamp(r)
    }
}

/// Recomputation is determined by the configuration and the traces: two
/// engines with the same configuration, redrawn from the same traces, end
/// with the same grid and the same configuration, whatever their grids were
/// before. So drawing again from unchanged traces changes nothing.
pub proof fn lemma_draw_is_deterministic(
    first: Mandelbrot,
    first_after: Mandelbrot,
    second: Mandelbrot,
    second_after: Mandelbrot,
    orbits: Seq<Seq<Seq<bool>>>,
)
    requires
        first.settings() == second.settings(),
        first.drawn(orbits, first_after),
        second.drawn(orbits, second_after),
    ensures
        first_after.grid() == second_after.grid(),
        first_after.settings() == second_after.settings(),
        first_after.drawn(orbits, first_after),
{
}

/// The image is determined by the grid and the configuration: engines that
/// agree on both have the same image.
pub proof fn lemma_image_is_determined(first: Mandelbrot, second: Mandelbrot)
    requires
        first.settings() == second.settings(),
        first.grid() == second.grid(),
    ensures
        first.image() == second.image(),
{
}

/// Two buffers derived from one engine hold the same bytes.
pub proof fn lemma_image_data_is_repeatable(
    engine: Mandelbrot,
    first: Clamped<Vec<u8>>,
    second: Clamped<Vec<u8>>,
)
    requires
        clamped_bytes(first) == engine.image(),
        clamped_bytes(second) == engine.image(),
    ensures
        clamped_bytes(first) == clamped_bytes(second),
{
}

} // verus!
