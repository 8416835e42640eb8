//! The view that the command line steers, and its rendering into pixels.
use vstd::prelude::*;
use crate::float::{
    float_div, float_mul, float_from_u64, float_to_u32, quotient, product, from_integer,
    truncation_u32, ONE,
};
use crate::grid::{lemma_cell_of_index, lemma_index_in_bounds};
use crate::mandelbrot::{cell_colour, coloring_table, colour_cell, fast_grid, mt_generate_tables};
use crate::pixelmapper::PixelMapper;
use crate::utils::{average_colour, mean_colour, lemma_mean_of_equal_colours, Complex, Rgb};

verus! {

/// The width of the rendered image at start.
pub const STARTING_WIDTH: u32 = 1920;

/// The height of the rendered image at start.
pub const STARTING_HEIGHT: u32 = 1080;

/// The width of the preview window at start.
pub const STARTING_WINDOW_WIDTH: u32 = 640;

/// The height of the preview window at start.
pub const STARTING_WINDOW_HEIGHT: u32 = 360;

/// -1.0
pub const MINUS_ONE: u32 = 0xbf80_0000;

/// One third, rounded to the nearest number.
pub const THIRD: u32 = 0x3eaa_aaab;

/// What the preview is told when the view or the resolution changed: the
/// mapper to draw with and the size of the window.
#[derive(Debug, Clone, Copy)]
pub struct ViewUpdate {
    pub pm: PixelMapper,
    pub wi: u32,
    pub hi: u32,
}

/// A command of the control line.
#[derive(Debug)]
pub enum Command {
    /// Renders the current view: the name of the file to write, the iteration
    /// budget, and the anti-aliasing factor.
    Render(String, usize, usize),
    /// Changes the resolution of the rendered image; the third value says
    /// how many of its pixels fall on one pixel of the preview.
    Resolution(u32, u32, u32),
    /// Changes the centre, the radius and the angle of the view.
    View(Complex, u32, u32),
    /// Asks for the current settings.
    Settings,
}

/// What a command is, with the file name as its characters.
pub enum CommandView {
    Render(Seq<char>, usize, usize),
    Resolution(u32, u32, u32),
    View(Complex, u32, u32),
    Settings,
}

impl Command {
    pub open spec fn view(&self) -> CommandView {
        match *self {
            Command::Render(name, max_iter, aa) => CommandView::Render(name@, max_iter, aa),
            Command::Resolution(x, y, sd) => CommandView::Resolution(x, y, sd),
            Command::View(centre, radius, angle) => CommandView::View(centre, radius, angle),
            Command::Settings => CommandView::Settings,
        }
    }
}

/// One word of a command line, together with what it reads as: a size, a
/// 32-bit count and a number, each `None` where the word is no such thing.
#[derive(Debug)]
pub struct Word {
    pub text: String,
    pub size: Option<usize>,
    pub count: Option<u32>,
    pub number: Option<u32>,
}

/// 3.0
pub const THREE: u32 = 0x4040_0000;

/// The word at place `i` read as a size, or `default` where the line ends
/// before it.
pub open spec fn size_or(words: Seq<Word>, i: int, default: usize) -> Option<usize> {
    if i < words.len() {
        words[i].size
    } else {
        Some(default)
    }
}

/// The word at place `i` read as a 32-bit count; `None` where the line ends
/// before it.
pub open spec fn count_at(words: Seq<Word>, i: int) -> Option<u32> {
    if i < words.len() {
        words[i].count
    } else {
        None
    }
}

/// The word at place `i` read as a number; `None` where the line ends
/// before it.
pub open spec fn number_at(words: Seq<Word>, i: int) -> Option<u32> {
    if i < words.len() {
        words[i].number
    } else {
        None
    }
}

/// `render [name [budget [factor]]]`: the name defaults to `output.png`, the
/// budget to 100 and the factor to 1.
pub open spec fn parsed_render(words: Seq<Word>) -> Option<CommandView> {
    let name = if 1 < words.len() {
        words[1].text@
    } else {
        "output.png"@
    };
    match (size_or(words, 2, 100), size_or(words, 3, 1)) {
        (Some(max_iter), Some(aa)) => Some(CommandView::Render(name, max_iter, aa)),
        _ => None,
    }
}

/// `res width height [divisor]`: the divisor defaults to 3.
pub open spec fn parsed_resolution(words: Seq<Word>) -> Option<CommandView> {
    let sd = if 3 < words.len() {
        words[3].number
    } else {
        Some(THREE)
    };
    match (count_at(words, 1), count_at(words, 2), sd) {
        (Some(x), Some(y), Some(sd)) => Some(CommandView::Resolution(x, y, sd)),
        _ => None,
    }
}

/// `view real imag radius angle`.
pub open spec fn parsed_view(words: Seq<Word>) -> Option<CommandView> {
    match (number_at(words, 1), number_at(words, 2), number_at(words, 3), number_at(words, 4)) {
        (Some(re), Some(im), Some(r), Some(angle)) => Some(
            CommandView::View(Complex { real: re, imag: im }, r, angle),
        ),
        _ => None,
    }
}

/// The command that a line of words stands for: the first word names it,
/// the following ones are its arguments, and words after the last argument
/// are ignored. `None` for an empty line, an unknown first word, a missing
/// argument, and an argument that does not read as what it has to be.
pub open spec fn parsed(words: Seq<Word>) -> Option<CommandView> {
    if words.len() == 0 {
        None
    } else if words[0].text@ == "render"@ {
        parsed_render(words)
    } else if words[0].text@ == "res"@ {
        parsed_resolution(words)
    } else if words[0].text@ == "view"@ {
        parsed_view(words)
    } else if words[0].text@ == "settings"@ {
        Some(CommandView::Settings)
    } else {
        None
    }
}

fn word_size_or(words: &[Word], i: usize, default: usize) -> (r: Option<usize>)
    ensures
        r == size_or(words@, i as int, default),
{
    if i < words.len() {
        words[i].size
    } else {
        Some(default)
    }
}

fn word_count(words: &[Word], i: usize) -> (r: Option<u32>)
    ensures
        r == count_at(words@, i as int),
{
    if i < words.len() {
        words[i].count
    } else {
        None
    }
}

fn word_number(words: &[Word], i: usize) -> (r: Option<u32>)
    ensures
        r == number_at(words@, i as int),
{
    if i < words.len() {
        words[i].number
    } else {
        None
    }
}

/// Reads a command from the words of a line.
pub fn parse_line(words: &[Word]) -> (r: Option<Command>)
    ensures
        match r {
            Some(c) => parsed(words@) == Some(c@),
            None => parsed(words@).is_none(),
        },
{
    if words.len() == 0 {
        return None;
    }
    let first = &words[0].text;
    if *first == "render".to_owned() {
        let name = if 1 < words.len() {
            words[1].text.clone()
        } else {
            "output.png".to_owned()
        };
        let max_iter = word_size_or(words, 2, 100);
        let aa = word_size_or(words, 3, 1);
        match (max_iter, aa) {
            (Some(max_iter), Some(aa)) => Some(Command::Render(name, max_iter, aa)),
            _ => None,
        }
    } else if *first == "res".to_owned() {
        let sd = if 3 < words.len() {
            words[3].number
        } else {
            Some(THREE)
        };
        match (word_count(words, 1), word_count(words, 2), sd) {
            (Some(x), Some(y), Some(sd)) => Some(Command::Resolution(x, y, sd)),
            _ => None,
        }
    } else if *first == "view".to_owned() {
        match (word_number(words, 1), word_number(words, 2), word_number(words, 3), word_number(words, 4)) {
            (Some(re), Some(im), Some(r), Some(angle)) => Some(
                Command::View(Complex { real: re, imag: im }, r, angle),
            ),
            _ => None,
        }
    } else if *first == "settings".to_owned() {
        Some(Command::Settings)
    } else {
        None
    }
}

/// A rendered image: `width * height` pixels, row by row.
#[derive(Debug)]
pub struct Picture {
    pub width: u32,
    pub height: u32,
    pub pixels: Vec<Rgb>,
}

/// What the caller is to do after a command.
#[derive(Debug)]
pub enum Reaction {
    /// Write the picture to the file of the given name.
    Save(String, Picture),
    /// The view cannot be rendered: it has more samples than can be counted.
    Unrenderable,
    /// Tell the preview about the changed view.
    Notify(ViewUpdate),
    /// Show the settings.
    Settings,
}

/// The state behind the control line.
#[derive(Debug, Clone, Copy)]
pub struct Controller {
    /// The mapper of the rendered image.
    pub render_pm: PixelMapper,
    pub centre: Complex,
    pub radius: u32,
    pub angle: u32,
    /// The width of the rendered image.
    pub iw: u32,
    /// The height of the rendered image.
    pub ih: u32,
    /// The size of the preview relative to the rendered image.
    pub scale: u32,
    /// The width of the preview.
    pub vw: u32,
    /// The height of the preview.
    pub vh: u32,
}

/// The pixels of a view of `width` by `height` pixels, one sample each,
/// coloured from the grid of the optimised evaluator.
pub open spec fn plain_image(pm: PixelMapper, width: nat, height: nat, max_iter: u16) -> Seq<Rgb> {
    let grid = fast_grid(pm, width, height, max_iter);
    let table = coloring_table(grid, max_iter);
    Seq::new(grid.len(), |k: int| cell_colour(table, grid[k]))
}

/// The colours of the `aa * aa` samples under the output pixel `(x, y)`, row
/// by row, in a grid of `gw` columns.
pub open spec fn block(table: Seq<u32>, grid: Seq<u16>, gw: nat, aa: nat, x: nat, y: nat) -> Seq<
    Rgb,
> {
    Seq::new(
        aa * aa,
        |j: int| cell_colour(table, grid[(x * aa + j % aa as int) + (y * aa + j / aa as int) * gw]),
    )
}

/// The pixels of a view of `width` by `height` pixels with `aa * aa` samples
/// each: the view is sampled at `aa` times the resolution, by a mapper with
/// its pixel offsets divided by `aa`, and every pixel is the mean colour of
/// its block of samples.
pub open spec fn smooth_image(pm: PixelMapper, width: nat, height: nat, max_iter: u16, aa: nat) -> Seq<
    Rgb,
> {
    let fine = pm.spec_scale(from_integer(aa as u64));
    let grid = fast_grid(fine, width * aa, height * aa, max_iter);
    let table = coloring_table(grid, max_iter);
    Seq::new(
        width * height,
        |k: int|
            mean_colour(
                block(table, grid, width * aa, aa, (k % width as int) as nat, (k / width as int) as nat),
            ),
    )
}

/// A block whose samples all have one colour renders as that colour.
pub proof fn lemma_uniform_block(
    table: Seq<u32>,
    grid: Seq<u16>,
    gw: nat,
    aa: nat,
    x: nat,
    y: nat,
    c: Rgb,
)
    requires
        aa > 0,
        forall|j: int| 0 <= j < aa * aa ==> #[trigger] block(table, grid, gw, aa, x, y)[j] == c,
    ensures
        mean_colour(block(table, grid, gw, aa, x, y)) == c,
{
    assert(aa * aa > 0) by (nonlinear_arith)
        requires
            aa > 0,
    ;
    lemma_mean_of_equal_colours(block(table, grid, gw, aa, x, y), c);
}

impl Controller {
    /// The state at start: the view of radius 1 around -1, turned by one
    /// radian, at the starting resolution, with a preview of a third the size.
    pub open spec fn initial() -> Controller {
        let centre = Complex { real: MINUS_ONE, imag: 0 };
        Controller {
            render_pm: PixelMapper::spec_new_radx(centre, ONE, ONE, STARTING_WIDTH, STARTING_HEIGHT),
            centre,
            radius: ONE,
            angle: ONE,
            iw: STARTING_WIDTH,
            ih: STARTING_HEIGHT,
            scale: THIRD,
            vw: STARTING_WINDOW_WIDTH,
            vh: STARTING_WINDOW_HEIGHT,
        }
    }

    /// The state after the resolution was set to `x` by `y` pixels with `sd`
    /// of them to one pixel of the preview.
    pub open spec fn with_resolution(self, x: u32, y: u32, sd: u32) -> Controller {
        let scale = quotient(ONE, sd);
        Controller {
            render_pm: PixelMapper::spec_new_radx(self.centre, self.radius, self.angle, x, y),
            iw: x,
            ih: y,
            scale,
            vw: truncation_u32(product(from_integer(x as u64), scale)) as u32,
            vh: truncation_u32(product(from_integer(y as u64), scale)) as u32,
            ..self
        }
    }

    /// The state after the view was set: the new centre, radius and angle
    /// are kept, and the mapper of the rendered image is rebuilt from them.
    pub open spec fn with_view(self, centre: Complex, radius: u32, angle: u32) -> Controller {
        Controller {
            render_pm: PixelMapper::spec_new_radx(centre, radius, angle, self.iw, self.ih),
            centre,
            radius,
            angle,
            ..self
        }
    }

    /// What the preview is told about this state.
    pub open spec fn view_update(self) -> ViewUpdate {
        ViewUpdate { pm: self.render_pm.spec_scale(self.scale), wi: self.vw, hi: self.vh }
    }

    /// The factor that a render with the requested factor `aa` samples by.
    pub open spec fn samples_per_side(aa: usize) -> nat {
        if aa <= 1 {
            1
        } else {
            aa as nat
        }
    }

    /// The view can be rendered with the factor `aa`: the sides of the
    /// sample grid and the number of samples fit in a `usize`.
    pub open spec fn renderable(self, aa: usize) -> bool {
        let n = Self::samples_per_side(aa);
        &&& self.iw * n <= usize::MAX
        &&& self.ih * n <= usize::MAX
        &&& (self.iw * n) * (self.ih * n) <= usize::MAX
    }

    /// The pixels that a render gives. Of the budget only the low 16 bits
    /// count.
    pub open spec fn image(self, max_iter: usize, aa: usize) -> Seq<Rgb> {
        let budget = (max_iter % 0x1_0000) as u16;
        if aa <= 1 {
            plain_image(self.render_pm, self.iw as nat, self.ih as nat, budget)
        } else {
            smooth_image(self.render_pm, self.iw as nat, self.ih as nat, budget, aa as nat)
        }
    }

    pub fn new() -> (r: Self)
        ensures
            r == Self::initial(),
    {
        let centre = Complex { real: MINUS_ONE, imag: 0 };
        Self {
            render_pm: PixelMapper::new_radx(centre, ONE, ONE, STARTING_WIDTH, STARTING_HEIGHT),
            centre,
            radius: ONE,
            angle: ONE,
            iw: STARTING_WIDTH,
            ih: STARTING_HEIGHT,
            scale: THIRD,
            vw: STARTING_WINDOW_WIDTH,
            vh: STARTING_WINDOW_HEIGHT,
        }
    }

    /// Takes one command: changes the state as the command says and returns
    /// what is left for the caller to do.
    pub fn do_command(&mut self, c: Command) -> (r: Reaction)
        ensures
            match c {
                Command::Render(name, max_iter, aa) => {
                    &&& *final(self) == *old(self)
                    &&& match r {
                        Reaction::Save(n, p) => {
                            &&& n == name
                            &&& old(self).renderable(aa)
                            &&& p.width == old(self).iw
                            &&& p.height == old(self).ih
                            &&& p.pixels@ == old(self).image(max_iter, aa)
                        },
                        Reaction::Unrenderable => !old(self).renderable(aa),
                        _ => false,
                    }
                },
                Command::Resolution(x, y, sd) => {
                    &&& *final(self) == old(self).with_resolution(x, y, sd)
                    &&& r == Reaction::Notify(final(self).view_update())
                },
                Command::View(centre, radius, angle) => {
                    &&& *final(self) == old(self).with_view(centre, radius, angle)
                    &&& r == Reaction::Notify(final(self).view_update())
                },
                Command::Settings => *final(self) == *old(self) && r == Reaction::Settings,
            },
    {
        match c {
            Command::Render(name, max_iter, aa) => {
                match self.render(max_iter, aa) {
                    Some(p) => Reaction::Save(name, p),
                    None => Reaction::Unrenderable,
                }
            },
            Command::Resolution(x, y, sd) => {
                let pm = PixelMapper::new_radx(self.centre, self.radius, self.angle, x, y);
                self.render_pm = pm;
                self.iw = x;
                self.ih = y;
                let scale = float_div(ONE, sd);
                self.scale = scale;
                let vf_pm = pm.scale(scale);
                let vw = float_to_u32(float_mul(float_from_u64(x as u64), scale));
                self.vw = vw;
                let vh = float_to_u32(float_mul(float_from_u64(y as u64), scale));
                self.vh = vh;
                Reaction::Notify(ViewUpdate { pm: vf_pm, wi: vw, hi: vh })
            },
            Command::View(centre, radius, angle) => {
                let pm = PixelMapper::new_radx(centre, radius, angle, self.iw, self.ih);
                self.render_pm = pm;
                self.centre = centre;
                self.radius = radius;
                self.angle = angle;
                let vf_pm = pm.scale(self.scale);
                Reaction::Notify(ViewUpdate { pm: vf_pm, wi: self.vw, hi: self.vh })
            },
            Command::Settings => Reaction::Settings,
        }
    }

    /// Renders the current view, with one sample for each pixel where `aa`
    /// is at most 1 and with `aa * aa` samples otherwise. Returns `None`
    /// exactly if the view is not renderable with that factor.
    pub fn render(&self, max_iter: usize, aa: usize) -> (r: Option<Picture>)
        ensures
            r.is_some() == self.renderable(aa),
            match r {
                Some(p) => {
                    &&& p.width == self.iw
                    &&& p.height == self.ih
                    &&& p.pixels@ == self.image(max_iter, aa)
                },
                None => true,
            },
    {
        let n: usize = if aa <= 1 {
            1
        } else {
            aa
        };
        let gw = match (self.iw as usize).checked_mul(n) {
            Some(gw) => gw,
            None => {
                return None;
            },
        };
        let gh = match (self.ih as usize).checked_mul(n) {
            Some(gh) => gh,
            None => {
                return None;
            },
        };
        if gw.checked_mul(gh).is_none() {
            return None;
        }
        let pixels = if aa <= 1 {
            self.render_no_aa(max_iter)
        } else {
            self.render_aa(max_iter, aa)
        };
        Some(Picture { width: self.iw, height: self.ih, pixels })
    }

    /// Renders the current view with one sample for each pixel.
    pub fn render_no_aa(&self, max_iter: usize) -> (pixels: Vec<Rgb>)
        requires
            self.iw * self.ih <= usize::MAX,
        ensures
            pixels@ == plain_image(
                self.render_pm,
                self.iw as nat,
                self.ih as nat,
                (max_iter % 0x1_0000) as u16,
            ),
    {
        let budget = (max_iter % 0x1_0000) as u16;
        let (g, h) = mt_generate_tables(&self.render_pm, self.iw as usize, self.ih as usize, budget);
        let cells = g.as_slice();
        let n = cells.len();
        let mut pixels: Vec<Rgb> = Vec::new();
        let mut k: usize = 0;
        while k < n
            invariant
                n == cells@.len(),
                k <= n,
                pixels@.len() == k,
                forall|j: int| 0 <= j < k ==> #[trigger] pixels@[j] == cell_colour(h@, cells@[j]),
            decreases n - k,
        {
            pixels.push(colour_cell(&h, cells[k]));
            k += 1;
        }
        assert(pixels@ =~= plain_image(
            self.render_pm,
            self.iw as nat,
            self.ih as nat,
            budget,
        ));
        pixels
    }

    /// Renders the current view with `aa * aa` samples for each pixel.
    pub fn render_aa(&self, max_iter: usize, aa: usize) -> (pixels: Vec<Rgb>)
        requires
            0 < aa,
            self.iw * aa <= usize::MAX,
            self.ih * aa <= usize::MAX,
            (self.iw * aa) * (self.ih * aa) <= usize::MAX,
        ensures
            pixels@ == smooth_image(
                self.render_pm,
                self.iw as nat,
                self.ih as nat,
                (max_iter % 0x1_0000) as u16,
                aa as nat,
            ),
    {
        let budget = (max_iter % 0x1_0000) as u16;
        let iw = self.iw as usize;
        let ih = self.ih as usize;
        let gw = iw * aa;
        let gh = ih * aa;
        let pm = self.render_pm.scale(float_from_u64(aa as u64));
        let (g, h) = mt_generate_tables(&pm, gw, gh, budget);
        let ghost table = coloring_table(g@, budget);
        let mut pixels: Vec<Rgb> = Vec::new();
        if iw == 0 || ih == 0 {
            proof {
                assert(iw * ih == 0) by (nonlinear_arith)
                    requires
                        iw == 0 || ih == 0,
                ;
                assert(pixels@ =~= smooth_image(
                    self.render_pm,
                    self.iw as nat,
                    self.ih as nat,
                    budget,
                    aa as nat,
                ));
            }
            return pixels;
        }
        proof {
            lemma_sample_grid_fits(iw as int, ih as int, aa as int, usize::MAX as int);
        }
        let n = iw * ih;
        let samples = aa * aa;
        let mut k: usize = 0;
        while k < n
            invariant
                0 < iw,
                0 < aa,
                n == iw * ih,
                gw == iw * aa,
                gh == ih * aa,
                samples == aa * aa,
                0 < samples,
                gw * gh <= usize::MAX,
                n <= usize::MAX,
                samples <= usize::MAX,
                g.wf(),
                g.spec_width() == gw,
                g.spec_height() == gh,
                g@.len() == gw * gh,
                h@ == table,
                k <= n,
                pixels@.len() == k,
                forall|i: int|
                    0 <= i < k ==> #[trigger] pixels@[i] == mean_colour(
                        block(
                            table,
                            g@,
                            gw as nat,
                            aa as nat,
                            (i % iw as int) as nat,
                            (i / iw as int) as nat,
                        ),
                    ),
            decreases n - k,
        {
            let x = k % iw;
            let y = k / iw;
            proof {
                lemma_cell_of_index(k as int, iw as int, ih as int);
                lemma_index_in_bounds(0, x as int, aa as int, iw as int);
                lemma_index_in_bounds(0, y as int, aa as int, ih as int);
                assert(aa * iw == iw * aa && aa * ih == ih * aa) by (nonlinear_arith);
            }
            let basex = x * aa;
            let basey = y * aa;
            let mut buf: Vec<Rgb> = Vec::new();
            let mut j: usize = 0;
            while j < samples
                invariant
                    0 < aa,
                    samples == aa * aa,
                    samples <= usize::MAX,
                    x < iw,
                    y < ih,
                    basex == x * aa,
                    basey == y * aa,
                    gw == iw * aa,
                    gh == ih * aa,
                    gw * gh <= usize::MAX,
                    g.wf(),
                    g.spec_width() == gw,
                    g.spec_height() == gh,
                    g@.len() == gw * gh,
                    h@ == table,
                    j <= samples,
                    buf@.len() == j,
                    forall|i: int|
                        0 <= i < j ==> #[trigger] buf@[i] == block(
                            table,
                            g@,
                            gw as nat,
                            aa as nat,
                            x as nat,
                            y as nat,
                        )[i],
                decreases samples - j,
            {
                let bx = j % aa;
                let by = j / aa;
                proof {
                    lemma_cell_of_index(j as int, aa as int, aa as int);
                    lemma_index_in_bounds(bx as int, x as int, aa as int, iw as int);
                    lemma_index_in_bounds(by as int, y as int, aa as int, ih as int);
                    assert(aa * iw == iw * aa && aa * ih == ih * aa) by (nonlinear_arith);
                    lemma_index_in_bounds(
                        (basex + bx) as int,
                        (basey + by) as int,
                        gw as int,
                        gh as int,
                    );
                }
                let count = g.get(basex + bx, basey + by);
                buf.push(colour_cell(&h, count));
                j += 1;
            }
            proof {
                assert(buf@ =~= block(table, g@, gw as nat, aa as nat, x as nat, y as nat));
            }
            pixels.push(average_colour(buf.as_slice()));
            k += 1;
        }
        proof {
            assert(pixels@ =~= smooth_image(
                self.render_pm,
                self.iw as nat,
                self.ih as nat,
                budget,
                aa as nat,
            ));
        }
        pixels
    }
}

/// Where the sample grid of a view that has pixels holds no more than
/// `limit` cells, the image and the block of one pixel hold no more either.
pub proof fn lemma_sample_grid_fits(iw: int, ih: int, aa: int, limit: int)
    requires
        0 < iw,
        0 < ih,
        0 < aa,
        (iw * aa) * (ih * aa) <= limit,
    ensures
        iw * ih <= limit,
        0 < aa * aa <= limit,
{
    assert(0 < aa * aa) by (nonlinear_arith)
        requires
            0 < aa,
    ;
    assert(iw * ih <= (iw * aa) * (ih * aa)) by (nonlinear_arith)
        requires
            0 < iw,
            0 < ih,
            1 <= aa,
    ;
    assert(aa * aa <= (iw * aa) * (ih * aa)) by (nonlinear_arith)
        requires
            1 <= iw,
            1 <= ih,
            1 <= aa,
    ;
}

} // verus!
