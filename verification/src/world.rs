//! The frame renderer: an ordered layer stack over the scene arena,
//! composited per pixel into an opaque RGBA frame, with an optional debug
//! outline around a selected node.

use vstd::prelude::*;

use crate::color::{mix_spec, new_spec, to_array_spec, transparent_spec, Color};
use crate::distortion::{Distorsion, Wave};
use crate::font::Font;
use crate::fx::{fx_mul, lemma_smul_bound, sin_rad, sin_rad_spec, smul, COORD_MAX, HALF, ONE};
use crate::layer::{layer_color_spec, Border, BorderPosition, Fill, LayerColor};
use crate::sdf::{
    arena_wf, eval_at, eval_at_spec, node_wf, obj_wf, Circle, Object, OpSmoothUnion, Square, SDF,
};
use crate::text::{bbox_at, Text};
use crate::transform::{apply_spec, identity_spec, map_spec, Transform};
use crate::utils::{smoothstep, smoothstep_spec};
use crate::vec2::Vec2;

verus! {

/// The frame size the sample scene is built for.
pub const WIDTH: usize = 600;

/// The frame size the sample scene is built for.
pub const HEIGHT: usize = 600;

/// One compositing layer: a node index and its zone colors.
#[derive(Clone, Copy, Debug, PartialEq, Eq, Structural)]
pub struct Layer {
    pub color: LayerColor,
    pub shape: usize,
}

/// The scene state handed to the renderer each frame: the font asset, the
/// layer stack (top to bottom), the object arena, and the debug-outline
/// selection.
pub struct World {
    pub font: Font,
    pub layers: Vec<Layer>,
    pub objects: Vec<Object>,
    pub selected_id: usize,
    pub is_debug: bool,
    pub is_initialized: bool,
    pub debug_transform: Transform,
}

/// The ancestor chain of a node: the indices from the root down to the node
/// itself, following parent links (which a well-formed arena keeps strictly
/// decreasing).
pub open spec fn ancestor_chain(arena: Seq<Object>, id: int) -> Seq<int>
    decreases id,
{
    if 0 <= id < arena.len() {
        match arena[id].parent_id {
            Option::Some(p) => if p < id {
                ancestor_chain(arena, p as int).push(id)
            } else {
                seq![id]
            },
            Option::None => seq![id],
        }
    } else {
        seq![id]
    }
}

/// The left fold of `apply` over a chain of node indices, from the
/// identity.
pub open spec fn fold_transforms(arena: Seq<Object>, chain: Seq<int>) -> Transform
    decreases chain.len(),
{
    if chain.len() == 0 {
        identity_spec()
    } else {
        apply_spec(fold_transforms(arena, chain.drop_last()), arena[chain.last()].transform)
    }
}

/// Every prefix of the fold stays a well-formed transform: the caller's
/// guarantee that the composed ancestor transforms stay in range.
pub open spec fn chain_fold_wf(arena: Seq<Object>, chain: Seq<int>) -> bool {
    forall|k: int| 0 <= k <= chain.len() ==> fold_transforms(arena, #[trigger] chain.take(k)).wf()
}

/// The debug transform of a node: its ancestors' transforms accumulated
/// root-first, the node's own transform excluded.
pub open spec fn debug_transform_spec(arena: Seq<Object>, id: int) -> Transform {
    fold_transforms(arena, ancestor_chain(arena, id).drop_last())
}

/// Fold the transforms of a node's full ancestor chain, the node included.
fn debug_chain_fold(arena: &Vec<Object>, id: usize) -> (t: Transform)
    requires
        arena_wf(arena@),
        id < arena.len(),
        chain_fold_wf(arena@, ancestor_chain(arena@, id as int)),
    ensures
        t == fold_transforms(arena@, ancestor_chain(arena@, id as int)),
        t.wf(),
    decreases id,
{
    proof {
        assert(node_wf(arena@[id as int], id as int, arena@.len() as int));
    }
    let ghost chain = ancestor_chain(arena@, id as int);
    let base: Transform = match arena[id].parent_id {
        Option::Some(p) => {
            proof {
                assert(chain == ancestor_chain(arena@, p as int).push(id as int));
                assert(chain.drop_last() =~= ancestor_chain(arena@, p as int));
                assert forall|k: int|
                    0 <= k <= ancestor_chain(arena@, p as int).len() implies fold_transforms(
                    arena@,
                    #[trigger] ancestor_chain(arena@, p as int).take(k),
                ).wf() by {
                    assert(ancestor_chain(arena@, p as int).take(k) =~= chain.take(k));
                    assert(fold_transforms(arena@, chain.take(k)).wf());
                }
            }
            debug_chain_fold(arena, p)
        },
        Option::None => {
            proof {
                assert(chain =~= seq![id as int]);
            }
            Transform::new()
        },
    };
    proof {
        assert(chain.last() == id as int);
        assert(base == fold_transforms(arena@, chain.drop_last()));
        // The full-chain fold is well-formed, which is exactly what the
        // accumulation step needs.
        assert(chain.take(chain.len() as int) =~= chain);
        assert(chain.take(chain.len() as int - 1) =~= chain.drop_last());
        assert(fold_transforms(arena@, chain).wf());
        assert(fold_transforms(arena@, chain) == apply_spec(base, arena@[id as int].transform));
        // The composed scale stays within `i64`, so its well-formedness
        // bounds the exact product.
        let tr = arena@[id as int].transform;
        crate::fx::lemma_mul_bounds(
            base.scale as int,
            tr.scale as int,
            crate::fx::SCALE_MAX as int,
            crate::fx::SCALE_MAX as int,
        );
        crate::fx::lemma_div_range(
            (base.scale as int) * (tr.scale as int),
            ONE as int,
            (crate::fx::SCALE_MAX as int) * (crate::fx::SCALE_MAX as int),
        );
    }
    let mut acc = base;
    acc.apply(arena[id].transform);
    acc
}

/// The accumulated transform of a node's ancestors, root-first, excluding
/// the node's own transform; the identity when the node has no ancestors.
pub fn get_debug_transform(parent_id: usize, arena: &Vec<Object>) -> (t: Transform)
    requires
        arena_wf(arena@),
        parent_id < arena.len(),
        chain_fold_wf(arena@, ancestor_chain(arena@, parent_id as int).drop_last()),
    ensures
        t == debug_transform_spec(arena@, parent_id as int),
        t.wf(),
{
    proof {
        assert(node_wf(arena@[parent_id as int], parent_id as int, arena@.len() as int));
    }
    let ghost chain = ancestor_chain(arena@, parent_id as int);
    match arena[parent_id].parent_id {
        Option::Some(p) => {
            proof {
                assert(chain == ancestor_chain(arena@, p as int).push(parent_id as int));
                assert(chain.drop_last() =~= ancestor_chain(arena@, p as int));
            }
            debug_chain_fold(arena, p)
        },
        Option::None => {
            proof {
                assert(chain =~= seq![parent_id as int]);
                assert(chain.drop_last() =~= Seq::<int>::empty());
            }
            Transform::new()
        },
    }
}

/// The opaque black background beneath every pixel.
pub open spec fn black_spec() -> Color {
    Color { r: 0, g: 0, b: 0, a: ONE }
}

impl World {
    /// What rendering relies on: a valid arena, layers referencing valid
    /// nodes with well-formed colors, and — when the debug outline is on —
    /// a valid selection and a well-formed debug transform.
    pub open spec fn render_wf(self) -> bool {
        &&& arena_wf(self.objects@)
        &&& forall|i: int|
            0 <= i < self.layers.len() ==> (#[trigger] self.layers[i]).shape < self.objects.len()
                && self.layers[i].color.wf()
        &&& self.is_debug ==> self.selected_id < self.objects.len() && self.debug_transform.wf()
    }
}

/// The scene-space point of a pixel: the origin at the image center, y
/// pointing up.
pub open spec fn pixel_point_spec(width: int, height: int, i: int, j: int) -> Vec2 {
    Vec2 { x: (i * ONE - width * HALF) as i64, y: (height * HALF - j * ONE) as i64 }
}

/// The color accumulated over the topmost `k` layers at a point, top to
/// bottom: each layer's zone color is mixed beneath the accumulator.
pub open spec fn layers_acc_spec(w: World, p: Vec2, k: int) -> Color
    decreases k,
{
    if k <= 0 {
        transparent_spec()
    } else {
        let prev = layers_acc_spec(w, p, k - 1);
        let layer = w.layers[k - 1];
        let d = eval_at_spec(w.objects@, layer.shape as int, p);
        mix_spec(layer_color_spec(layer.color, d), prev)
    }
}

/// The debug-outline color at an evaluated distance: a thin antialiased
/// yellow ring around the zero crossing.
pub open spec fn debug_color_spec(dd: int) -> Color {
    new_spec(
        ONE as int,
        ONE as int,
        0,
        smoothstep_spec(0, 2 * ONE, dd) - smoothstep_spec(2 * ONE, 4 * ONE, dd),
    )
}

/// A pixel's final color: the layer stack over opaque black, plus the
/// debug outline when enabled.
pub open spec fn pixel_color_spec(w: World, width: int, height: int, i: int, j: int) -> Color {
    let p = pixel_point_spec(width, height, i, j);
    let lc = layers_acc_spec(w, p, w.layers@.len() as int);
    let bg = mix_spec(black_spec(), lc);
    if w.is_debug {
        let dp = map_spec(w.debug_transform, p);
        let dd = eval_at_spec(w.objects@, w.selected_id as int, dp);
        mix_spec(bg, debug_color_spec(dd))
    } else {
        bg
    }
}

/// A pixel's four output bytes.
pub open spec fn pixel_bytes_spec(w: World, width: int, height: int, i: int, j: int) -> Seq<u8> {
    to_array_spec(pixel_color_spec(w, width, height, i, j))
}

/// The bytes of the first `i` pixels of row `j`.
pub open spec fn row_prefix_spec(w: World, width: int, height: int, j: int, i: int) -> Seq<u8>
    decreases i,
{
    if i <= 0 {
        Seq::empty()
    } else {
        row_prefix_spec(w, width, height, j, i - 1) + pixel_bytes_spec(w, width, height, i - 1, j)
    }
}

/// The bytes of row `j`.
pub open spec fn row_spec(w: World, width: int, height: int, j: int) -> Seq<u8> {
    row_prefix_spec(w, width, height, j, width)
}

/// The bytes of the first `j` rows.
pub open spec fn frame_prefix_spec(w: World, width: int, height: int, j: int) -> Seq<u8>
    decreases j,
{
    if j <= 0 {
        Seq::empty()
    } else {
        frame_prefix_spec(w, width, height, j - 1) + row_spec(w, width, height, j - 1)
    }
}

/// The bytes of the whole frame, rows top to bottom.
pub open spec fn frame_spec(w: World, width: int, height: int) -> Seq<u8> {
    frame_prefix_spec(w, width, height, height)
}

/// A row prefix holds four bytes per pixel.
pub proof fn lemma_row_prefix_len(w: World, width: int, height: int, j: int, i: int)
    requires
        i >= 0,
    ensures
        row_prefix_spec(w, width, height, j, i).len() == 4 * i,
    decreases i,
{
    if i > 0 {
        lemma_row_prefix_len(w, width, height, j, i - 1);
    }
}

/// A frame prefix holds `4 * width` bytes per row.
pub proof fn lemma_frame_prefix_len(w: World, width: int, height: int, j: int)
    requires
        j >= 0,
        width >= 0,
    ensures
        frame_prefix_spec(w, width, height, j).len() == j * (4 * width),
    decreases j,
{
    if j > 0 {
        lemma_frame_prefix_len(w, width, height, j - 1);
        lemma_row_prefix_len(w, width, height, j - 1, width);
        assert((j - 1) * (4 * width) + 4 * width == j * (4 * width)) by (nonlinear_arith);
    } else {
        assert(j * (4 * width) == 0) by (nonlinear_arith)
            requires
                j == 0,
        ;
    }
}

/// The accumulated layer color keeps a unit-interval alpha.
proof fn lemma_layers_acc_alpha(w: World, p: Vec2, k: int)
    requires
        w.render_wf(),
        k <= w.layers.len(),
    ensures
        0 <= layers_acc_spec(w, p, k).a <= ONE,
    decreases k,
{
    if k > 0 {
        lemma_layers_acc_alpha(w, p, k - 1);
    }
}

/// Law: every pixel of a frame is fully opaque — the black background
/// beneath the layer stack saturates the alpha whatever the layers and the
/// debug outline contribute.
pub proof fn lemma_pixel_opaque(w: World, width: int, height: int, i: int, j: int)
    requires
        w.render_wf(),
    ensures
        pixel_color_spec(w, width, height, i, j).a == ONE,
        pixel_bytes_spec(w, width, height, i, j)[3] == 255,
{
    let p = pixel_point_spec(width, height, i, j);
    lemma_layers_acc_alpha(w, p, w.layers@.len() as int);
}

/// Once the accumulated color is fully opaque, the remaining (occluded)
/// layers cannot change it.
proof fn lemma_layers_acc_opaque(w: World, p: Vec2, k: int, n: int)
    requires
        w.render_wf(),
        0 <= k <= n <= w.layers.len(),
        layers_acc_spec(w, p, k).a == ONE,
    ensures
        layers_acc_spec(w, p, n) == layers_acc_spec(w, p, k),
    decreases n - k,
{
    if k < n {
        lemma_layers_acc_opaque(w, p, k, n - 1);
        let layer = w.layers[n - 1];
        let d = eval_at_spec(w.objects@, layer.shape as int, p);
        crate::layer::lemma_layer_color_alpha(layer.color, d);
        crate::color::lemma_mix_opaque_front(
            layer_color_spec(layer.color, d),
            layers_acc_spec(w, p, n - 1),
        );
    }
}

impl World {
    /// A fresh world around a font asset: empty scene, debug outline on.
    pub fn new(font: Font) -> (w: World)
        ensures
            w.font == font,
            w.layers@.len() == 0,
            w.objects@.len() == 0,
            w.selected_id == 0,
            w.is_debug,
            !w.is_initialized,
            w.debug_transform == identity_spec(),
    {
        World {
            font,
            layers: Vec::new(),
            objects: Vec::new(),
            selected_id: 0,
            is_debug: true,
            is_initialized: false,
            debug_transform: Transform::new(),
        }
    }

    /// One pixel's color: the layer stack walked top to bottom (stopping
    /// early once the accumulated alpha saturates, which provably cannot
    /// change the result), over an opaque black background, plus the debug
    /// outline when enabled.
    fn render_pixel(&self, width: usize, height: usize, i: usize, j: usize) -> (c: Color)
        requires
            self.render_wf(),
            1 <= width <= 4096,
            1 <= height <= 4096,
            i < width,
            j < height,
        ensures
            c == pixel_color_spec(*self, width as int, height as int, i as int, j as int),
            c.wf(),
    {
        let point = Vec2 {
            x: (i as i64) * ONE - (width as i64) * HALF,
            y: (height as i64) * HALF - (j as i64) * ONE,
        };
        let mut color = Color::new(0, 0, 0, 0);
        proof {
            assert(color == transparent_spec());
        }
        let nl = self.layers.len();
        let mut k: usize = 0;
        while k < nl
            invariant
                self.render_wf(),
                point == pixel_point_spec(width as int, height as int, i as int, j as int),
                point.bounded(COORD_MAX as int),
                nl == self.layers.len(),
                k <= nl,
                color.wf(),
                color == layers_acc_spec(*self, point, k as int),
            ensures
                color.wf(),
                color == layers_acc_spec(*self, point, nl as int),
            decreases nl - k,
        {
            let layer = self.layers[k];
            let distance = eval_at(&self.objects, layer.shape, point);
            let back = layer.color.get_color(distance);
            color = back.mix(&color);
            k = k + 1;
            if color.a >= ONE {
                proof {
                    lemma_layers_acc_opaque(*self, point, k as int, nl as int);
                }
                break ;
            }
        }
        let black = Color::new(0, 0, 0, ONE);
        proof {
            assert(black == black_spec());
        }
        let mut out = black.mix(&color);
        if self.is_debug {
            let dp = self.debug_transform.map(point);
            let dd = eval_at(&self.objects, self.selected_id, dp);
            let border_width = 2 * ONE;
            let alpha = smoothstep(0, border_width, dd) - smoothstep(
                border_width,
                2 * border_width,
                dd,
            );
            let debug_color = Color::new(ONE, ONE, 0, alpha);
            out = out.mix(&debug_color);
        }
        out
    }

    /// Render one row of the frame into RGBA bytes.
    pub fn render_row(&self, width: usize, height: usize, j: usize) -> (row: Vec<u8>)
        requires
            self.render_wf(),
            1 <= width <= 4096,
            1 <= height <= 4096,
            j < height,
        ensures
            row@ == row_spec(*self, width as int, height as int, j as int),
            row@.len() == 4 * width,
    {
        let mut row: Vec<u8> = Vec::new();
        let mut i: usize = 0;
        while i < width
            invariant
                self.render_wf(),
                1 <= width <= 4096,
                1 <= height <= 4096,
                j < height,
                i <= width,
                row@ == row_prefix_spec(*self, width as int, height as int, j as int, i as int),
                row@.len() == 4 * i,
            decreases width - i,
        {
            let c = self.render_pixel(width, height, i, j);
            let bytes = c.to_array();
            row.push(bytes[0]);
            row.push(bytes[1]);
            row.push(bytes[2]);
            row.push(bytes[3]);
            proof {
                assert(row@ =~= row_prefix_spec(
                    *self,
                    width as int,
                    height as int,
                    j as int,
                    i as int,
                ) + to_array_spec(c));
                assert(row@ =~= row_prefix_spec(
                    *self,
                    width as int,
                    height as int,
                    j as int,
                    i as int + 1,
                ));
            }
            i = i + 1;
        }
        row
    }

    /// Render the whole frame into RGBA bytes, row by row, top to bottom.
    pub fn render(&self, width: usize, height: usize) -> (frame: Vec<u8>)
        requires
            self.render_wf(),
            1 <= width <= 4096,
            1 <= height <= 4096,
        ensures
            frame@ == frame_spec(*self, width as int, height as int),
            frame@.len() == width * height * 4,
    {
        let mut frame: Vec<u8> = Vec::new();
        let mut j: usize = 0;
        while j < height
            invariant
                self.render_wf(),
                1 <= width <= 4096,
                1 <= height <= 4096,
                j <= height,
                frame@ == frame_prefix_spec(*self, width as int, height as int, j as int),
                frame@.len() == j * (4 * width),
            decreases height - j,
        {
            let mut row = self.render_row(width, height, j);
            frame.append(&mut row);
            proof {
                assert(frame@ =~= frame_prefix_spec(
                    *self,
                    width as int,
                    height as int,
                    j as int + 1,
                ));
                assert((j as int) * (4 * width as int) + 4 * width as int == (j as int + 1) * (4
                    * width as int)) by (nonlinear_arith);
            }
            j = j + 1;
        }
        proof {
            assert((height as int) * (4 * width as int) == (width as int) * (height as int) * 4)
                by (nonlinear_arith);
        }
        frame
    }
}

/// The animated rotation of the sample scene's union node.
pub open spec fn anim_rotation_spec(time: int) -> int {
    smul(time, 5 * ONE)
}

/// The animated scale of the sample scene's union node: a quarter-unit
/// swing around one.
pub open spec fn anim_scale_spec(time: int) -> int {
    ONE + smul(sin_rad_spec(smul(time, 2 * ONE)), 16384)
}

/// The animated fuzz of the sample scene's union node.
pub open spec fn anim_fuzz_spec(time: int) -> int {
    25 * ONE + smul(sin_rad_spec(smul(time, 2 * ONE)), 20 * ONE)
}

/// The animated wave of the sample scene's large circle.
pub open spec fn anim_wave4_spec(time: int) -> Wave {
    Wave {
        width: ((WIDTH * 65536) as i64),
        height: ((HEIGHT * 65536) as i64),
        x_amplitude: (11 * ONE + smul(sin_rad_spec(smul(time, 98304)), 10 * ONE)) as i64,
        x_freq: (51 * ONE + smul(sin_rad_spec(smul(time, 163840)), 50 * ONE)) as i64,
        y_amplitude: (11 * ONE + smul(sin_rad_spec(smul(time, 32768)), 10 * ONE)) as i64,
        y_freq: (21 * ONE + smul(sin_rad_spec(smul(time, 16384)), 20 * ONE)) as i64,
        time: ONE,
    }
}

/// The animated wave of the sample scene's text node.
pub open spec fn anim_wave5_spec(time: int) -> Wave {
    Wave {
        width: ((WIDTH * 65536) as i64),
        height: ((HEIGHT * 65536) as i64),
        x_amplitude: ONE,
        x_freq: ONE,
        y_amplitude: (10 * ONE) as i64,
        y_freq: (20 * ONE) as i64,
        time: time as i64,
    }
}

/// The byte codes of the sample scene's text run.
pub open spec fn sample_text() -> Seq<u8> {
    seq![
        72u8,
        101u8,
        108u8,
        108u8,
        111u8,
        32u8,
        119u8,
        111u8,
        114u8,
        108u8,
        100u8,
        33u8,
        32u8,
        58u8,
        45u8,
        41u8,
    ]
}

/// The wave both distorted sample nodes start with.
pub open spec fn sample_wave() -> Wave {
    Wave {
        width: ((WIDTH * 65536) as i64),
        height: ((HEIGHT * 65536) as i64),
        x_amplitude: ((20 * ONE) as i64),
        x_freq: ((100 * ONE) as i64),
        y_amplitude: ONE,
        y_freq: ONE,
        time: ONE,
    }
}

/// The sample scene's seven nodes: the smooth union of a circle and a bar,
/// those two operands, a tilted bar, a wavy large circle, a wavy text run
/// laid out over the given font, and a small dot.
pub open spec fn sample_objects(objects: Seq<Object>, font: Font) -> bool {
    &&& objects.len() == 7
    &&& objects[0].transform == (Transform { x: 0, y: 0, rotation: 0, scale: ONE })
    &&& objects[0].distortion@.len() == 0
    &&& objects[0].parent_id == Option::<usize>::None
    &&& objects[0].sdf == SDF::OpSmoothUnion(
        OpSmoothUnion { sdf_1: 1, sdf_2: 2, fuzz: ((25 * ONE) as i64) },
    )
    &&& objects[1].transform == (Transform { x: 0, y: 0, rotation: 0, scale: ONE })
    &&& objects[1].distortion@.len() == 0
    &&& objects[1].parent_id == Option::Some(0usize)
    &&& objects[1].sdf == SDF::Circle(Circle { radius: ((50 * ONE) as i64) })
    &&& objects[2].transform == (Transform { x: 0, y: 0, rotation: 0, scale: ONE })
    &&& objects[2].distortion@.len() == 0
    &&& objects[2].parent_id == Option::Some(0usize)
    &&& objects[2].sdf == SDF::Square(
        Square { size: Vec2 { x: ((100 * ONE) as i64), y: ((10 * ONE) as i64) } },
    )
    &&& objects[3].transform == (Transform {
        x: 0,
        y: ((100 * ONE) as i64),
        rotation: ((15 * ONE) as i64),
        scale: ONE,
    })
    &&& objects[3].distortion@.len() == 0
    &&& objects[3].parent_id == Option::<usize>::None
    &&& objects[3].sdf == SDF::Square(
        Square { size: Vec2 { x: ((10 * ONE) as i64), y: ((100 * ONE) as i64) } },
    )
    &&& objects[4].transform == (Transform {
        x: 0,
        y: ((-100 * ONE) as i64),
        rotation: 0,
        scale: ONE,
    })
    &&& objects[4].distortion@ == seq![Distorsion::Wave(sample_wave())]
    &&& objects[4].parent_id == Option::<usize>::None
    &&& objects[4].sdf == SDF::Circle(Circle { radius: ((100 * ONE) as i64) })
    &&& objects[5].transform == (Transform {
        x: ((-150 * ONE) as i64),
        y: ((-65 * ONE) as i64),
        rotation: 0,
        scale: 78643,
    })
    &&& objects[5].distortion@ == seq![Distorsion::Wave(sample_wave())]
    &&& objects[5].parent_id == Option::<usize>::None
    &&& objects[5].sdf matches SDF::Text(t) && t.size == ((32 * ONE) as i64) && t.text@
        == sample_text() && t.font.chars@ == font.chars@ && t.font.image@ == font.image@
        && t.font.scale_width == font.scale_width && t.font.scale_height == font.scale_height
        && t.bboxes.len() == 16 && (forall|i: int|
        0 <= i < 16 ==> #[trigger] t.bboxes[i] == bbox_at(font.chars@, sample_text(), i))
    &&& objects[6].transform == (Transform {
        x: ((-100 * ONE) as i64),
        y: ((100 * ONE) as i64),
        rotation: 0,
        scale: ONE,
    })
    &&& objects[6].distortion@.len() == 0
    &&& objects[6].parent_id == Option::<usize>::None
    &&& objects[6].sdf == SDF::Circle(Circle { radius: ((3 * ONE) as i64) })
}

/// The sample scene's five layers, top to bottom: a red dot, white text, a
/// cyan bar with an amber outside border, the red union, and a red outside
/// border around the wavy circle.
pub open spec fn sample_layers(layers: Seq<Layer>) -> bool {
    &&& layers.len() == 5
    &&& layers[0] == (Layer {
        shape: 6usize,
        color: LayerColor {
            inside: Option::Some(Fill::Solid(new_spec(ONE as int, 0, 0, ONE as int))),
            border: Option::None,
            outside: Option::None,
        },
    })
    &&& layers[1] == (Layer {
        shape: 5usize,
        color: LayerColor {
            inside: Option::Some(
                Fill::Solid(new_spec(ONE as int, ONE as int, ONE as int, ONE as int)),
            ),
            border: Option::None,
            outside: Option::None,
        },
    })
    &&& layers[2] == (Layer {
        shape: 3usize,
        color: LayerColor {
            inside: Option::Some(Fill::Solid(new_spec(0, ONE as int, ONE as int, ONE as int))),
            border: Option::Some(
                Border {
                    position: BorderPosition::Outside,
                    size: ((5 * ONE) as i64),
                    color: new_spec(ONE as int, 49152, 6554, ONE as int),
                },
            ),
            outside: Option::None,
        },
    })
    &&& layers[3] == (Layer {
        shape: 0usize,
        color: LayerColor {
            inside: Option::Some(Fill::Solid(new_spec(ONE as int, 0, 0, ONE as int))),
            border: Option::None,
            outside: Option::None,
        },
    })
    &&& layers[4] == (Layer {
        shape: 4usize,
        color: LayerColor {
            inside: Option::None,
            border: Option::Some(
                Border {
                    position: BorderPosition::Outside,
                    size: ((10 * ONE) as i64),
                    color: new_spec(ONE as int, 0, 0, ONE as int),
                },
            ),
            outside: Option::None,
        },
    })
}

impl World {
    /// Build the sample scene: a smooth union of a circle and a bar, a
    /// tilted bar with a border, a wavy circle, a wavy text run and a small
    /// dot, with five layers over them. Runs once; later calls change
    /// nothing.
    pub fn init(&mut self)
        requires
            old(self).font.wf(),
        ensures
            final(self).is_initialized,
            old(self).is_initialized ==> *final(self) == *old(self),
            !old(self).is_initialized ==> final(self).font == old(self).font,
            !old(self).is_initialized ==> final(self).selected_id == old(self).selected_id,
            !old(self).is_initialized ==> final(self).is_debug == old(self).is_debug,
            !old(self).is_initialized ==> final(self).debug_transform == old(self).debug_transform,
            !old(self).is_initialized ==> final(self).objects@.len() == 7,
            !old(self).is_initialized ==> arena_wf(final(self).objects@),
            !old(self).is_initialized ==> final(self).layers@.len() == 5,
            !old(self).is_initialized ==> forall|i: int|
                0 <= i < 5 ==> (#[trigger] final(self).layers@[i]).shape < 7 && final(self).layers@[i].color.wf(),
            !old(self).is_initialized ==> final(self).objects@[4].distortion@.len() == 1,
            !old(self).is_initialized ==> final(self).objects@[5].distortion@.len() == 1,
            !old(self).is_initialized ==> sample_objects(final(self).objects@, old(self).font),
            !old(self).is_initialized ==> sample_layers(final(self).layers@),
            !old(self).is_initialized && old(self).selected_id < 7 && (old(self).is_debug ==> old(self).debug_transform.wf()) ==> final(self).render_wf(),
    {
        if self.is_initialized {
            return ;
        }
        self.is_initialized = true;
        let mut objects: Vec<Object> = Vec::new();
        objects.push(
            Object {
                transform: Transform { x: 0, y: 0, rotation: 0, scale: ONE },
                distortion: Vec::new(),
                parent_id: Option::None,
                sdf: SDF::OpSmoothUnion(OpSmoothUnion { sdf_1: 1, sdf_2: 2, fuzz: 25 * ONE }),
            },
        );
        objects.push(
            Object {
                transform: Transform { x: 0, y: 0, rotation: 0, scale: ONE },
                distortion: Vec::new(),
                parent_id: Option::Some(0),
                sdf: SDF::Circle(Circle { radius: 50 * ONE }),
            },
        );
        objects.push(
            Object {
                transform: Transform { x: 0, y: 0, rotation: 0, scale: ONE },
                distortion: Vec::new(),
                parent_id: Option::Some(0),
                sdf: SDF::Square(Square { size: Vec2 { x: 100 * ONE, y: 10 * ONE } }),
            },
        );
        objects.push(
            Object {
                transform: Transform {
                    x: 0,
                    y: ((HEIGHT / 6) as i64) * ONE,
                    rotation: 15 * ONE,
                    scale: ONE,
                },
                distortion: Vec::new(),
                parent_id: Option::None,
                sdf: SDF::Square(Square { size: Vec2 { x: 10 * ONE, y: 100 * ONE } }),
            },
        );
        let mut wave4: Vec<Distorsion> = Vec::new();
        wave4.push(
            Distorsion::Wave(
                Wave {
                    width: (WIDTH as i64) * ONE,
                    height: (HEIGHT as i64) * ONE,
                    x_amplitude: 20 * ONE,
                    x_freq: 100 * ONE,
                    y_amplitude: ONE,
                    y_freq: ONE,
                    time: ONE,
                },
            ),
        );
        objects.push(
            Object {
                transform: Transform { x: 0, y: -100 * ONE, rotation: 0, scale: ONE },
                distortion: wave4,
                parent_id: Option::None,
                sdf: SDF::Circle(Circle { radius: 100 * ONE }),
            },
        );
        let mut wave5: Vec<Distorsion> = Vec::new();
        wave5.push(
            Distorsion::Wave(
                Wave {
                    width: (WIDTH as i64) * ONE,
                    height: (HEIGHT as i64) * ONE,
                    x_amplitude: 20 * ONE,
                    x_freq: 100 * ONE,
                    y_amplitude: ONE,
                    y_freq: ONE,
                    time: ONE,
                },
            ),
        );
        let mut hello: Vec<u8> = Vec::new();
        hello.push(72);  // H
        hello.push(101);  // e
        hello.push(108);  // l
        hello.push(108);  // l
        hello.push(111);  // o
        hello.push(32);
        hello.push(119);  // w
        hello.push(111);  // o
        hello.push(114);  // r
        hello.push(108);  // l
        hello.push(100);  // d
        hello.push(33);  // !
        hello.push(32);
        hello.push(58);  // :
        hello.push(45);  // -
        hello.push(41);  // )
        let ghost hello_v = hello@;
        let text_sdf = Text::new(hello, 32 * ONE, &self.font);
        proof {
            assert(hello_v =~= sample_text());
        }
        objects.push(
            Object {
                // A fifth over unit scale, in fixed-point steps.
                transform: Transform { x: -150 * ONE, y: -65 * ONE, rotation: 0, scale: 78643 },
                distortion: wave5,
                parent_id: Option::None,
                sdf: SDF::Text(text_sdf),
            },
        );
        objects.push(
            Object {
                transform: Transform { x: -100 * ONE, y: 100 * ONE, rotation: 0, scale: ONE },
                distortion: Vec::new(),
                parent_id: Option::None,
                sdf: SDF::Circle(Circle { radius: 3 * ONE }),
            },
        );
        let mut layers: Vec<Layer> = Vec::new();
        layers.push(
            Layer {
                shape: 6,
                color: LayerColor {
                    inside: Option::Some(Fill::Solid(Color::new(ONE, 0, 0, ONE))),
                    border: Option::None,
                    outside: Option::None,
                },
            },
        );
        layers.push(
            Layer {
                shape: 5,
                color: LayerColor {
                    inside: Option::Some(Fill::Solid(Color::new(ONE, ONE, ONE, ONE))),
                    border: Option::None,
                    outside: Option::None,
                },
            },
        );
        layers.push(
            Layer {
                shape: 3,
                color: LayerColor {
                    inside: Option::Some(Fill::Solid(Color::new(0, ONE, ONE, ONE))),
                    border: Option::Some(
                        Border {
                            position: BorderPosition::Outside,
                            size: 5 * ONE,
                            // Three quarters and about a tenth of a unit.
                            color: Color::new(ONE, 49152, 6554, ONE),
                        },
                    ),
                    outside: Option::None,
                },
            },
        );
        layers.push(
            Layer {
                shape: 0,
                color: LayerColor {
                    inside: Option::Some(Fill::Solid(Color::new(ONE, 0, 0, ONE))),
                    border: Option::None,
                    outside: Option::None,
                },
            },
        );
        layers.push(
            Layer {
                shape: 4,
                color: LayerColor {
                    inside: Option::None,
                    border: Option::Some(
                        Border {
                            position: BorderPosition::Outside,
                            size: 10 * ONE,
                            color: Color::new(ONE, 0, 0, ONE),
                        },
                    ),
                    outside: Option::None,
                },
            },
        );
        self.objects = objects;
        self.layers = layers;
        proof {
            assert(sample_objects(self.objects@, old(self).font));
            assert(sample_layers(self.layers@));
            assert forall|i: int| 0 <= i < 7 implies node_wf(
                #[trigger] self.objects@[i],
                i,
                self.objects@.len() as int,
            ) by {
                if i == 4 {
                    assert(self.objects@[4].distortion@[0].wf());
                    assert(forall|k: int|
                        0 <= k < self.objects@[4].distortion@.len() ==> (
                        #[trigger] self.objects@[4].distortion@[k]).wf());
                }
                if i == 5 {
                    assert(self.objects@[5].distortion@[0].wf());
                    assert(forall|k: int|
                        0 <= k < self.objects@[5].distortion@.len() ==> (
                        #[trigger] self.objects@[5].distortion@[k]).wf());
                }
            }
        }
    }

    /// Advance the sample scene's animation to a point in time: the union
    /// node spins, breathes and melts, and the two waves drift.
    pub fn update(&mut self, time: i64)
        requires
            -0x400_0000 <= time <= 0x400_0000,
            arena_wf(old(self).objects@),
            old(self).objects@.len() == 7,
            old(self).objects@[4].distortion@.len() == 1,
            old(self).objects@[5].distortion@.len() == 1,
            old(self).selected_id < 7,
            chain_fold_wf(
                old(self).objects@,
                ancestor_chain(old(self).objects@, old(self).selected_id as int).drop_last(),
            ),
        ensures
            final(self).font == old(self).font,
            final(self).layers == old(self).layers,
            final(self).selected_id == old(self).selected_id,
            final(self).is_debug == old(self).is_debug,
            final(self).is_initialized == old(self).is_initialized,
            final(self).debug_transform == debug_transform_spec(
                old(self).objects@,
                old(self).selected_id as int,
            ),
            final(self).debug_transform.wf(),
            final(self).objects@.len() == 7,
            arena_wf(final(self).objects@),
            forall|i: int|
                0 <= i < 7 && i != 0 && i != 4 && i != 5 ==> final(self).objects@[i] == old(self).objects@[i],
            final(self).objects@[0].transform.x == old(self).objects@[0].transform.x,
            final(self).objects@[0].transform.y == old(self).objects@[0].transform.y,
            final(self).objects@[0].transform.rotation == anim_rotation_spec(time as int),
            final(self).objects@[0].transform.scale == anim_scale_spec(time as int),
            final(self).objects@[0].distortion@.len() == 0,
            final(self).objects@[0].parent_id == old(self).objects@[0].parent_id,
            final(self).objects@[0].sdf == SDF::OpSmoothUnion(
                OpSmoothUnion { sdf_1: 1, sdf_2: 2, fuzz: anim_fuzz_spec(time as int) as i64 },
            ),
            final(self).objects@[4].transform == old(self).objects@[4].transform,
            final(self).objects@[4].parent_id == old(self).objects@[4].parent_id,
            final(self).objects@[4].sdf == old(self).objects@[4].sdf,
            final(self).objects@[4].distortion@ =~= seq![
                Distorsion::Wave(anim_wave4_spec(time as int)),
            ],
            final(self).objects@[5].transform == old(self).objects@[5].transform,
            final(self).objects@[5].parent_id == old(self).objects@[5].parent_id,
            final(self).objects@[5].sdf == old(self).objects@[5].sdf,
            final(self).objects@[5].distortion@ =~= seq![
                Distorsion::Wave(anim_wave5_spec(time as int)),
            ],
            old(self).render_wf() ==> final(self).render_wf(),
    {
        let dt = get_debug_transform(self.selected_id, &self.objects);
        self.debug_transform = dt;
        proof {
            assert(node_wf(self.objects@[0], 0, 7));
            assert(node_wf(self.objects@[4], 4, 7));
            assert(node_wf(self.objects@[5], 5, 7));
        }
        // The spinning, breathing smooth union.
        let s2 = sin_rad(fx_mul(time, 2 * ONE));
        let rot = fx_mul(time, 5 * ONE);
        proof {
            assert((0x400_0000 as int) * ((5 * ONE) as int) == 335544320 * (ONE as int))
                by (nonlinear_arith);
            lemma_smul_bound(time as int, 5 * ONE, 0x400_0000, 5 * ONE, 335544320);
            lemma_smul_bound(s2 as int, 16384, ONE as int, 16384, 16384);
            lemma_smul_bound(s2 as int, 20 * ONE, ONE as int, 20 * ONE, 20 * ONE);
        }
        let sc = ONE + fx_mul(s2, 16384);
        let fz = 25 * ONE + fx_mul(s2, 20 * ONE);
        let old0 = self.objects.remove(0);
        let obj0 = Object {
            transform: Transform { x: old0.transform.x, y: old0.transform.y, rotation: rot, scale: sc },
            distortion: Vec::new(),
            parent_id: old0.parent_id,
            sdf: SDF::OpSmoothUnion(OpSmoothUnion { sdf_1: 1, sdf_2: 2, fuzz: fz }),
        };
        self.objects.insert(0, obj0);
        proof {
            assert(self.objects@ =~= old(self).objects@.update(0, self.objects@[0]));
        }
        // The large circle's drifting wave.
        proof {
            assert((0x400_0000 as int) * 98304 == 100663296 * (ONE as int)) by (nonlinear_arith);
            assert((0x400_0000 as int) * 163840 == 167772160 * (ONE as int)) by (nonlinear_arith);
            assert((0x400_0000 as int) * 32768 == 33554432 * (ONE as int)) by (nonlinear_arith);
            assert((0x400_0000 as int) * 16384 == 16777216 * (ONE as int)) by (nonlinear_arith);
            lemma_smul_bound(time as int, 98304, 0x400_0000, 98304, 100663296);
            lemma_smul_bound(time as int, 163840, 0x400_0000, 163840, 167772160);
            lemma_smul_bound(time as int, 32768, 0x400_0000, 32768, 33554432);
            lemma_smul_bound(time as int, 16384, 0x400_0000, 16384, 16777216);
        }
        let s15 = sin_rad(fx_mul(time, 98304));
        let s25 = sin_rad(fx_mul(time, 163840));
        let s05 = sin_rad(fx_mul(time, 32768));
        let s025 = sin_rad(fx_mul(time, 16384));
        proof {
            lemma_smul_bound(s15 as int, 10 * ONE, ONE as int, 10 * ONE, 10 * ONE);
            lemma_smul_bound(s25 as int, 50 * ONE, ONE as int, 50 * ONE, 50 * ONE);
            lemma_smul_bound(s05 as int, 10 * ONE, ONE as int, 10 * ONE, 10 * ONE);
            lemma_smul_bound(s025 as int, 20 * ONE, ONE as int, 20 * ONE, 20 * ONE);
        }
        let w4 = Wave {
            width: (WIDTH as i64) * ONE,
            height: (HEIGHT as i64) * ONE,
            x_amplitude: 11 * ONE + fx_mul(s15, 10 * ONE),
            x_freq: 51 * ONE + fx_mul(s25, 50 * ONE),
            y_amplitude: 11 * ONE + fx_mul(s05, 10 * ONE),
            y_freq: 21 * ONE + fx_mul(s025, 20 * ONE),
            time: ONE,
        };
        let mut o4 = self.objects.remove(4);
        let mut d4: Vec<Distorsion> = Vec::new();
        d4.push(Distorsion::Wave(w4));
        o4.distortion = d4;
        self.objects.insert(4, o4);
        proof {
            assert(self.objects@ =~= old(self).objects@.update(0, self.objects@[0]).update(
                4,
                self.objects@[4],
            ));
        }
        // The text's drifting wave.
        let w5 = Wave {
            width: (WIDTH as i64) * ONE,
            height: (HEIGHT as i64) * ONE,
            x_amplitude: ONE,
            x_freq: ONE,
            y_amplitude: 10 * ONE,
            y_freq: 20 * ONE,
            time,
        };
        let mut o5 = self.objects.remove(5);
        let mut d5: Vec<Distorsion> = Vec::new();
        d5.push(Distorsion::Wave(w5));
        o5.distortion = d5;
        self.objects.insert(5, o5);
        proof {
            assert(self.objects@ =~= old(self).objects@.update(0, self.objects@[0]).update(
                4,
                self.objects@[4],
            ).update(5, self.objects@[5]));
            assert(w4 == anim_wave4_spec(time as int));
            assert(w5 == anim_wave5_spec(time as int));
            assert forall|i: int| 0 <= i < 7 implies node_wf(
                #[trigger] self.objects@[i],
                i,
                self.objects@.len() as int,
            ) by {
                assert(node_wf(old(self).objects@[i], i, 7));
                if i == 0 {
                    assert(obj_wf(self.objects@[0]));
                } else if i == 4 {
                    assert(self.objects@[4].distortion@[0].wf());
                } else if i == 5 {
                    assert(self.objects@[5].distortion@[0].wf());
                }
            }
        }
    }
}

/// A subrange that ends within the left part of a concatenation ignores the
/// right part.
proof fn lemma_subrange_of_concat_left(s: Seq<u8>, t: Seq<u8>, a: int, b: int)
    requires
        0 <= a <= b <= s.len(),
    ensures
        (s + t).subrange(a, b) == s.subrange(a, b),
{
    assert((s + t).subrange(a, b) =~= s.subrange(a, b));
}

proof fn lemma_frame_prefix_rows(w: World, width: int, height: int, j: int, h: int)
    requires
        width >= 0,
        0 <= j < h,
    ensures
        frame_prefix_spec(w, width, height, h).subrange(j * (4 * width), (j + 1) * (4 * width))
            == row_spec(w, width, height, j),
    decreases h,
{
    lemma_frame_prefix_len(w, width, height, h - 1);
    lemma_row_prefix_len(w, width, height, h - 1, width);
    assert((j + 1) * (4 * width) == j * (4 * width) + 4 * width) by (nonlinear_arith);
    if j == h - 1 {
        assert(j * (4 * width) == (h - 1) * (4 * width));
        assert(frame_prefix_spec(w, width, height, h).subrange(
            j * (4 * width),
            (j + 1) * (4 * width),
        ) =~= row_spec(w, width, height, j));
    } else {
        lemma_frame_prefix_rows(w, width, height, j, h - 1);
        assert((j + 1) * (4 * width) <= (h - 1) * (4 * width)) by (nonlinear_arith)
            requires
                j + 1 <= h - 1,
                width >= 0,
        ;
        assert(j * (4 * width) >= 0) by (nonlinear_arith)
            requires
                j >= 0,
                width >= 0,
        ;
        lemma_subrange_of_concat_left(
            frame_prefix_spec(w, width, height, h - 1),
            row_spec(w, width, height, h - 1),
            j * (4 * width),
            (j + 1) * (4 * width),
        );
    }
}

/// Law: the frame is exactly its rows laid end to end — the byte slice of
/// row `j` in a full frame equals that row rendered on its own, so per-row
/// evaluation (for instance in parallel) assembles to the very same frame.
pub proof fn lemma_frame_rows(w: World, width: int, height: int, j: int)
    requires
        width >= 0,
        0 <= j < height,
    ensures
        frame_spec(w, width, height).subrange(j * (4 * width), (j + 1) * (4 * width)) == row_spec(
            w,
            width,
            height,
            j,
        ),
{
    lemma_frame_prefix_rows(w, width, height, j, height);
}

} // verus!
