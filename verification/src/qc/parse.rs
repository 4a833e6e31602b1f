//! Reading a whole script into a model.
use vstd::prelude::*;

use super::bones::{
    bone_index, build_table, complete, completed_all, find_bone, parents_first, set_props,
    sort_parents_first, table, with_props,
};
use super::dispatch::{command, dispatch, FLAG_STATIC_PROP};
use super::dropped::{dropped_bones, parts_dropped};
use super::error::{ErrorView, QcError};
use super::lexer::{
    find_source, join, join_path, left, no_text, source_views, started, LexState, Lexer, Source,
    Token,
};
use super::model::{
    Animation, AnimationView, BodyModel, BodyModelView, BodyPart, BodyPartView, Bone, BoneView,
    FrameRange, LodModel, LodModelView, Materials, MaterialsView, ModelDesc, ModelDescView, Pair,
    PairView, Physics, PhysicsView, rows, Script, ScriptView, Sequence, SequenceEvent,
    SequenceEventView, SequenceView,
};
use super::procedural::source_index;
use super::read::{any_token, left_at, went_on, At};
use super::settings::is_blank;
use super::skins::{
    build_skins, first_group, list_textures, place, place_of, skins, textures,
};
use crate::arith::{
    at_most, below, difference, from_count, less, minus, not_above, of_count, over, quotient,
};
use crate::seqs::{add_distinct, distinct, viewed, viewing};
use crate::smd::{mesh, parse_smd, Smd, SmdView};
use crate::single::ONE;
use crate::text::{chars_of, decimal, lower, same, same_but_case, string_of, utf8_text};

verus! {

broadcast use viewing;

/// Nothing said of how a model collides.
pub open spec fn no_physics() -> PhysicsView {
    PhysicsView {
        smd: None,
        joints: false,
        mass: None,
        concave: false,
        damping: None,
        rot_damping: None,
        inertia: None,
        drag: None,
        root_bone: None,
        no_self_collisions: false,
        auto_mass: false,
        mass_center: None,
        merge: Seq::empty(),
        collision_pairs: Seq::empty(),
        constraints: Seq::empty(),
        animated_friction: None,
        joint_overrides: Seq::empty(),
    }
}

/// A model of which nothing is said. It is solid.
pub open spec fn no_model() -> ModelDescView {
    ModelDescView {
        name: Seq::empty(),
        static_prop: false,
        surface_prop: None,
        eye_position: None,
        illum_position: None,
        max_eye_deflection: None,
        hull_min: None,
        hull_max: None,
        extra_flags: None,
        contents: 1,
        skip_bone_in_bbox: false,
        key_values: None,
        pose_parameters: Seq::empty(),
        realign_bones: false,
        anim_block_size: None,
        physics: no_physics(),
        materials: MaterialsView {
            search_paths: Seq::empty(),
            textures: Seq::empty(),
            skin_families: Seq::empty(),
        },
        bones: Seq::empty(),
        bodyparts: Seq::empty(),
        hitbox_set: None,
        hitboxes: Seq::empty(),
        attachments: Seq::empty(),
        sequences: Seq::empty(),
        animations: Seq::empty(),
        ikchains: Seq::empty(),
        ik_autoplay_locks: Seq::empty(),
        flex_descriptors: Seq::empty(),
        flex_controllers: Seq::empty(),
        flex_rules: Seq::empty(),
        mouths: Seq::empty(),
        jiggle_bones: Seq::empty(),
        quat_interp_bones: Seq::empty(),
        joined_models: Seq::empty(),
        weight_lists: Seq::empty(),
    }
}

/// A script of which nothing is read.
pub open spec fn no_script() -> ScriptView {
    ScriptView {
        desc: no_model(),
        import_bones: Seq::empty(),
        cddir: seq![Seq::empty()],
        scale: ONE,
        gflags: 0,
        texture_groups: Seq::empty(),
        sequence_names: Seq::empty(),
        animation_names: Seq::empty(),
        referenced_files: Seq::empty(),
        bonemerge_names: Seq::empty(),
        attachment_absolute: Seq::empty(),
        joint_surface_props: Seq::empty(),
        pending_lods: Seq::empty(),
        pending_vta: None,
        last_block_name: None,
        section_frames: None,
        missing_files: Seq::empty(),
    }
}

/// No text.
fn no_name() -> (r: String)
    ensures
        r@ == Seq::<char>::empty(),
{
    let r: String = String::new();
    assert(r@ =~= Seq::empty());
    r
}

impl Default for Physics {
    fn default() -> (r: Self)
        ensures
            r@ == no_physics(),
    {
        Physics {
            smd: None,
            joints: false,
            mass: None,
            concave: false,
            damping: None,
            rot_damping: None,
            inertia: None,
            drag: None,
            root_bone: None,
            no_self_collisions: false,
            auto_mass: false,
            mass_center: None,
            merge: Vec::new(),
            collision_pairs: Vec::new(),
            constraints: Vec::new(),
            animated_friction: None,
            joint_overrides: Vec::new(),
        }
    }
}

/// A model of which nothing is said.
fn new_model() -> (r: ModelDesc)
    ensures
        r@ == no_model(),
{
    let physics: Physics = Physics::default();
    let materials: Materials = Materials {
        search_paths: Vec::new(),
        textures: Vec::new(),
        skin_families: Vec::new(),
    };
    ModelDesc {
        name: no_name(),
        static_prop: false,
        surface_prop: None,
        eye_position: None,
        illum_position: None,
        max_eye_deflection: None,
        hull_min: None,
        hull_max: None,
        extra_flags: None,
        contents: 1,
        skip_bone_in_bbox: false,
        key_values: None,
        pose_parameters: Vec::new(),
        realign_bones: false,
        anim_block_size: None,
        physics,
        materials,
        bones: Vec::new(),
        bodyparts: Vec::new(),
        hitbox_set: None,
        hitboxes: Vec::new(),
        attachments: Vec::new(),
        sequences: Vec::new(),
        animations: Vec::new(),
        ikchains: Vec::new(),
        ik_autoplay_locks: Vec::new(),
        flex_descriptors: Vec::new(),
        flex_controllers: Vec::new(),
        flex_rules: Vec::new(),
        mouths: Vec::new(),
        jiggle_bones: Vec::new(),
        quat_interp_bones: Vec::new(),
        joined_models: Vec::new(),
        weight_lists: Vec::new(),
    }
}

/// A script of which nothing is read.
fn new_script() -> (r: Script)
    ensures
        r@ == no_script(),
{
    let mut cddir: Vec<String> = Vec::new();
    cddir.push(no_name());
    assert(viewed(cddir@) =~= seq![Seq::<char>::empty()]);
    Script {
        desc: new_model(),
        import_bones: Vec::new(),
        cddir,
        scale: ONE,
        gflags: 0,
        texture_groups: Vec::new(),
        sequence_names: Vec::new(),
        animation_names: Vec::new(),
        referenced_files: Vec::new(),
        bonemerge_names: Vec::new(),
        attachment_absolute: Vec::new(),
        joint_surface_props: Vec::new(),
        pending_lods: Vec::new(),
        pending_vta: None,
        last_block_name: None,
        section_frames: None,
        missing_files: Vec::new(),
    }
}

/// The errors of a script, as mathematical values.
pub open spec fn went<T: View>(
    r: Result<T, Vec<QcError>>,
    want: Result<T::V, Seq<ErrorView>>,
) -> bool {
    match (r, want) {
        (Ok(a), Ok(b)) => a@ == b,
        (Err(a), Err(b)) => viewed(a@) == b,
        _ => false,
    }
}

/// The mesh in a file that a script needs.
pub open spec fn file_mesh(st: LexState, file: Seq<char>) -> Result<SmdView, ErrorView> {
    let path = join(st.qdir, file);
    match find_source(st.sources, path, 0) {
        None => Err(ErrorView { file: path, line: 0, message: "读不到 SMD（QC 里引用了它）"@ }),
        Some(i) => {
            let bytes = st.sources[i].bytes;
            if let Some(f) = st.sources[i].failure {
                Err(
                    ErrorView {
                        file: path,
                        line: 0,
                        message: "读不到 SMD（QC 里引用了它）："@ + f.reason,
                    },
                )
            } else if !vstd::utf8::valid_utf8(bytes) {
                Err(
                    ErrorView {
                        file: path,
                        line: 0,
                        message:
                            "读不到 SMD（QC 里引用了它）：stream did not contain valid UTF-8"@,
                    },
                )
            } else {
                match mesh(vstd::utf8::decode_utf8(bytes)) {
                    Ok(m) => Ok(m),
                    Err(e) => Err(
                        ErrorView {
                            file: path,
                            line: e.line,
                            message: "SMD 解析失败："@ + ("第 "@ + decimal(e.line) + " 行："@
                                + e.message),
                        },
                    ),
                }
            }
        },
    }
}

/// Reads the mesh in a file that a script needs.
fn load_mesh(lex: &Lexer, file: &str) -> (r: Result<Smd, QcError>)
    ensures
        match (r, file_mesh(lex@, file@)) {
            (Ok(a), Ok(b)) => a@ == b,
            (Err(a), Err(b)) => a@ == b,
            _ => false,
        },
{
    let path: String = join_path(lex.qdir.as_str(), file);
    let i: usize = match source_index(&lex.sources, path.as_str()) {
        None => {
            return Err(QcError::new(path, 0, "读不到 SMD（QC 里引用了它）".to_owned()));
        },
        Some(i) => i,
    };
    assert(lex@.sources[i as int] == lex.sources@[i as int]@);
    if let Some(f) = &lex.sources[i].failure {
        let mut m: String = "读不到 SMD（QC 里引用了它）：".to_owned();
        m.push_str(f.reason.as_str());
        return Err(QcError::new(path, 0, m));
    }
    match utf8_text(lex.sources[i].bytes.as_slice()) {
        Err(_) => Err(
            QcError::new(
                path,
                0,
                "读不到 SMD（QC 里引用了它）：stream did not contain valid UTF-8".to_owned(),
            ),
        ),
        Ok(text) => match parse_smd(text.as_str()) {
            Ok(m) => Ok(m),
            Err(e) => {
                let mut m: String = "SMD 解析失败：".to_owned();
                let told: String = e.describe();
                m.push_str(told.as_str());
                Err(QcError::new(path, e.line, m))
            },
        },
    }
}

/// What is wrong with the files from the `k`-th on.
pub open spec fn file_errors(st: LexState, files: Seq<Seq<char>>, k: int) -> Seq<ErrorView>
    decreases files.len() - k,
{
    if k < 0 || k >= files.len() {
        Seq::empty()
    } else {
        match file_mesh(st, files[k]) {
            Ok(_) => file_errors(st, files, k + 1),
            Err(e) => seq![e] + file_errors(st, files, k + 1),
        }
    }
}

/// The meshes in files with which nothing is wrong.
pub open spec fn file_meshes(st: LexState, files: Seq<Seq<char>>) -> Seq<SmdView> {
    Seq::new(files.len(), |i: int| file_mesh(st, files[i])->Ok_0)
}

/// The meshes in files; what is wrong with any of them, where something is.
pub open spec fn meshes_of(st: LexState, files: Seq<Seq<char>>) -> Result<
    Seq<SmdView>,
    Seq<ErrorView>,
> {
    let errors = file_errors(st, files, 0);
    if errors.len() > 0 {
        Err(errors)
    } else {
        Ok(file_meshes(st, files))
    }
}

/// Reads the meshes in files.
fn load_meshes(lex: &Lexer, files: &Vec<String>) -> (r: Result<Vec<Smd>, Vec<QcError>>)
    ensures
        match (r, meshes_of(lex@, viewed(files@))) {
            (Ok(a), Ok(b)) => viewed(a@) == b,
            (Err(a), Err(b)) => viewed(a@) == b,
            _ => false,
        },
{
    let ghost names = viewed(files@);
    let ghost all = file_errors(lex@, names, 0);
    let mut errors: Vec<QcError> = Vec::new();
    let mut meshes: Vec<Smd> = Vec::new();
    let mut k: usize = 0;
    assert(viewed(errors@) + all =~= all);
    while k < files.len()
        invariant
            k <= files@.len(),
            names == viewed(files@),
            all == file_errors(lex@, names, 0),
            viewed(errors@) + file_errors(lex@, names, k as int) == all,
            errors@.len() == 0 ==> viewed(meshes@) == file_meshes(lex@, names).take(k as int),
        decreases files@.len() - k,
    {
        assert(names[k as int] == files@[k as int]@);
        let ghost before = viewed(errors@);
        let ghost rest = file_errors(lex@, names, k + 1);
        let ghost done = meshes@;
        match load_mesh(lex, files[k].as_str()) {
            Ok(m) => {
                meshes.push(m);
                if errors.len() == 0 {
                    assert(viewed(meshes@) =~= file_meshes(lex@, names).take(k + 1));
                }
            },
            Err(e) => {
                errors.push(e);
                assert(before + (seq![e@] + rest) =~= viewed(errors@) + rest);
            },
        }
        k = k + 1;
    }
    assert(viewed(errors@) + file_errors(lex@, names, k as int) =~= viewed(errors@));
    assert(viewed(errors@).len() == errors@.len());
    if errors.len() > 0 {
        Err(errors)
    } else {
        assert(viewed(meshes@) =~= file_meshes(lex@, names));
        Ok(meshes)
    }
}

/// The names, each once, in order of first appearance.
fn once_each(names: &Vec<String>) -> (r: Vec<String>)
    ensures
        viewed(r@) == distinct(viewed(names@)),
{
    let ghost v = viewed(names@);
    let mut out: Vec<String> = Vec::new();
    let mut k: usize = 0;
    assert(v.take(0) =~= Seq::empty());
    assert(viewed(out@) =~= distinct(v.take(0)));
    while k < names.len()
        invariant
            k <= names@.len(),
            v == viewed(names@),
            viewed(out@) == distinct(v.take(k as int)),
        decreases names@.len() - k,
    {
        assert(v[k as int] == names@[k as int]@);
        assert(v.take(k + 1).drop_last() =~= v.take(k as int));
        assert(v.take(k + 1).last() == v[k as int]);
        if !super::sequence::is_among(&out, names[k].as_str()) {
            out.push(names[k].clone());
        }
        assert(viewed(out@) == add_distinct(distinct(v.take(k as int)), v[k as int]));
        k = k + 1;
    }
    assert(v.take(k as int) =~= v);
    out
}

/// The first animation with the given name, in any ASCII case, from `i` on.
pub open spec fn find_animation(list: Seq<AnimationView>, name: Seq<char>, i: int) -> Option<int>
    decreases list.len() - i,
{
    if i < 0 || i >= list.len() {
        None
    } else if lower(list[i].name) == lower(name) {
        Some(i)
    } else {
        find_animation(list, name, i + 1)
    }
}

/// The first animation with the given name, in any ASCII case.
pub fn animation_index(list: &Vec<Animation>, name: &str) -> (r: Option<usize>)
    ensures
        match r {
            Some(i) => i < list@.len() && find_animation(viewed(list@), name@, 0) == Some(i as int),
            None => find_animation(viewed(list@), name@, 0) is None,
        },
{
    let mut i: usize = 0;
    while i < list.len()
        invariant
            i <= list@.len(),
            find_animation(viewed(list@), name@, i as int) == find_animation(viewed(list@), name@, 0),
        decreases list@.len() - i,
    {
        assert(viewed(list@)[i as int] == list@[i as int]@);
        if same_but_case(list[i].name.as_str(), name) {
            return Some(i);
        }
        i = i + 1;
    }
    None
}

/// How many frames the mesh in a file has, if the file was read.
pub open spec fn mesh_frames(
    files: Seq<Seq<char>>,
    meshes: Seq<SmdView>,
    file: Seq<char>,
) -> Option<nat> {
    match place(files, file, 0) {
        Some(i) => Some(meshes[i].frames.len()),
        None => None,
    }
}

/// How many frames a sequence has: those of its first animation, by name or by file; 0 where that
/// is not known.
pub open spec fn sequence_frames(
    q: SequenceView,
    animations: Seq<AnimationView>,
    files: Seq<Seq<char>>,
    meshes: Seq<SmdView>,
) -> nat {
    let first = if q.blends.len() > 0 {
        q.blends[0]
    } else {
        q.smd
    };
    let by_name = match find_animation(animations, first, 0) {
        Some(i) => mesh_frames(files, meshes, animations[i].smd),
        None => None,
    };
    match by_name {
        Some(n) => n,
        None => match mesh_frames(files, meshes, first) {
            Some(n) => n,
            None => 0,
        },
    }
}

/// How many frames the mesh in a file has.
fn count_mesh_frames(files: &Vec<String>, meshes: &Vec<Smd>, file: &str) -> (r: Option<usize>)
    requires
        files@.len() == meshes@.len(),
    ensures
        match r {
            Some(n) => mesh_frames(viewed(files@), viewed(meshes@), file@) == Some(n as nat),
            None => mesh_frames(viewed(files@), viewed(meshes@), file@) is None,
        },
{
    match place_of(files, file) {
        Some(i) => {
            assert(viewed(meshes@)[i as int] == meshes@[i as int]@);
            Some(meshes[i].frames.len())
        },
        None => None,
    }
}

/// How many frames a sequence has.
fn count_frames(
    q: &Sequence,
    animations: &Vec<Animation>,
    files: &Vec<String>,
    meshes: &Vec<Smd>,
) -> (r: usize)
    requires
        files@.len() == meshes@.len(),
    ensures
        r == sequence_frames(q@, viewed(animations@), viewed(files@), viewed(meshes@)),
{
    let first: &String = if q.blends.len() > 0 {
        assert(viewed(q.blends@)[0] == q.blends@[0]@);
        &q.blends[0]
    } else {
        &q.smd
    };
    if let Some(i) = animation_index(animations, first.as_str()) {
        assert(viewed(animations@)[i as int] == animations@[i as int]@);
        if let Some(n) = count_mesh_frames(files, meshes, animations[i].smd.as_str()) {
            return n;
        }
    }
    match count_mesh_frames(files, meshes, first.as_str()) {
        Some(n) => n,
        None => 0,
    }
}

/// The place of a frame in a sequence of `n` frames, from zero at the first to one at the last;
/// zero for a frame behind the last.
pub open spec fn cycle_of(frame: u32, n: nat) -> u32 {
    let last = if n > 0 {
        difference(of_count(n), ONE)
    } else {
        0
    };
    if at_most(frame, last) && below(0, last) {
        quotient(frame, last)
    } else {
        0
    }
}

/// The place of a frame in a sequence.
fn place_frame(frame: u32, n: usize) -> (r: u32)
    ensures
        r == cycle_of(frame, n as nat),
{
    let last: u32 = if n > 0 {
        minus(from_count(n), ONE)
    } else {
        0
    };
    if not_above(frame, last) && less(0, last) {
        over(frame, last)
    } else {
        0
    }
}

/// What happens in a sequence of `n` frames, with its place.
pub open spec fn timed(events: Seq<SequenceEventView>, n: nat) -> Seq<SequenceEventView> {
    Seq::new(
        events.len(),
        |i: int| SequenceEventView { cycle: cycle_of(events[i].cycle, n), ..events[i] },
    )
}

/// A sequence with what is known at the end of the script.
pub open spec fn sequence_done(q: SequenceView, n: nat, sections: Option<FrameRange>) -> SequenceView {
    let q = SequenceView { events: timed(q.events, n), ..q };
    match (sections, q.section_frames) {
        (Some(r), None) => SequenceView {
            section_frames: Some(r.first),
            section_threshold: Some(r.last),
            ..q
        },
        _ => q,
    }
}

/// Sequences with what is known at the end of the script.
pub open spec fn sequences_done(
    list: Seq<SequenceView>,
    animations: Seq<AnimationView>,
    files: Seq<Seq<char>>,
    meshes: Seq<SmdView>,
    sections: Option<FrameRange>,
) -> Seq<SequenceView> {
    Seq::new(
        list.len(),
        |i: int|
            sequence_done(list[i], sequence_frames(list[i], animations, files, meshes), sections),
    )
}

/// Gives all that happens in a sequence of `n` frames its place.
fn set_times(events: &mut Vec<SequenceEvent>, n: usize)
    ensures
        viewed(final(events)@) == timed(viewed(old(events)@), n as nat),
{
    let ghost start = viewed(events@);
    let total: usize = events.len();
    let mut k: usize = 0;
    while k < total
        invariant
            total == events@.len() == start.len(),
            k <= total,
            forall|j: int|
                0 <= j < total ==> #[trigger] events@[j]@ == if j < k {
                    timed(start, n as nat)[j]
                } else {
                    start[j]
                },
        decreases total - k,
    {
        assert(events@[k as int]@ == start[k as int]);
        let c: u32 = place_frame(events[k].cycle, n);
        events[k].cycle = c;
        assert(events@[k as int]@ == timed(start, n as nat)[k as int]);
        k = k + 1;
    }
    assert(viewed(events@) =~= timed(start, n as nat));
}

/// Completes a sequence.
fn finish_sequence(q: &mut Sequence, n: usize, sections: Option<FrameRange>)
    ensures
        final(q)@ == sequence_done(old(q)@, n as nat, sections),
{
    set_times(&mut q.events, n);
    if let Some(r) = sections {
        if q.section_frames.is_none() {
            q.section_frames = Some(r.first);
            q.section_threshold = Some(r.last);
        }
    }
}

/// Completes sequences.
fn finish_sequences(
    list: &mut Vec<Sequence>,
    animations: &Vec<Animation>,
    files: &Vec<String>,
    meshes: &Vec<Smd>,
    sections: Option<FrameRange>,
)
    requires
        files@.len() == meshes@.len(),
    ensures
        viewed(final(list)@) == sequences_done(
            viewed(old(list)@),
            viewed(animations@),
            viewed(files@),
            viewed(meshes@),
            sections,
        ),
{
    let ghost start = viewed(list@);
    let ghost want = sequences_done(
        start,
        viewed(animations@),
        viewed(files@),
        viewed(meshes@),
        sections,
    );
    let total: usize = list.len();
    let mut k: usize = 0;
    while k < total
        invariant
            total == list@.len() == start.len(),
            k <= total,
            files@.len() == meshes@.len(),
            want == sequences_done(
                start,
                viewed(animations@),
                viewed(files@),
                viewed(meshes@),
                sections,
            ),
            forall|j: int|
                0 <= j < total ==> #[trigger] list@[j]@ == if j < k {
                    want[j]
                } else {
                    start[j]
                },
        decreases total - k,
    {
        assert(list@[k as int]@ == start[k as int]);
        let n: usize = count_frames(&list[k], animations, files, meshes);
        finish_sequence(&mut list[k], n, sections);
        assert(list@[k as int]@ == want[k as int]);
        k = k + 1;
    }
    assert(viewed(list@) =~= want);
}

/// The names from the `k`-th on that are names of bones.
pub open spec fn known_names(list: Seq<Seq<char>>, bones: Seq<BoneView>, k: int) -> Seq<Seq<char>>
    decreases list.len() - k,
{
    if k < 0 || k >= list.len() {
        Seq::empty()
    } else if find_bone(bones, list[k], 0) is Some {
        seq![list[k]] + known_names(list, bones, k + 1)
    } else {
        known_names(list, bones, k + 1)
    }
}

/// The pairs from the `k`-th on that are names of bones, both of them.
pub open spec fn known_pairs(list: Seq<PairView>, bones: Seq<BoneView>, k: int) -> Seq<PairView>
    decreases list.len() - k,
{
    if k < 0 || k >= list.len() {
        Seq::empty()
    } else if find_bone(bones, list[k].a, 0) is Some && find_bone(bones, list[k].b, 0) is Some {
        seq![list[k]] + known_pairs(list, bones, k + 1)
    } else {
        known_pairs(list, bones, k + 1)
    }
}

/// Keeps the names that are names of bones.
fn keep_names(list: &Vec<String>, bones: &Vec<Bone>) -> (r: Vec<String>)
    ensures
        viewed(r@) == known_names(viewed(list@), viewed(bones@), 0),
{
    let ghost v = viewed(list@);
    let ghost b = viewed(bones@);
    let mut out: Vec<String> = Vec::new();
    let mut k: usize = 0;
    assert(viewed(out@) + known_names(v, b, 0) =~= known_names(v, b, 0));
    while k < list.len()
        invariant
            k <= list@.len(),
            v == viewed(list@),
            b == viewed(bones@),
            viewed(out@) + known_names(v, b, k as int) == known_names(v, b, 0),
        decreases list@.len() - k,
    {
        assert(v[k as int] == list@[k as int]@);
        let ghost before = viewed(out@);
        let ghost rest = known_names(v, b, k + 1);
        if bone_index(bones, list[k].as_str()).is_some() {
            out.push(list[k].clone());
            assert(before + (seq![v[k as int]] + rest) =~= viewed(out@) + rest);
        }
        k = k + 1;
    }
    assert(viewed(out@) + known_names(v, b, k as int) =~= viewed(out@));
    out
}

/// Keeps the pairs that are names of bones.
fn keep_pairs(list: &Vec<Pair>, bones: &Vec<Bone>) -> (r: Vec<Pair>)
    ensures
        viewed(r@) == known_pairs(viewed(list@), viewed(bones@), 0),
{
    let ghost v = viewed(list@);
    let ghost b = viewed(bones@);
    let mut out: Vec<Pair> = Vec::new();
    let mut k: usize = 0;
    assert(viewed(out@) + known_pairs(v, b, 0) =~= known_pairs(v, b, 0));
    while k < list.len()
        invariant
            k <= list@.len(),
            v == viewed(list@),
            b == viewed(bones@),
            viewed(out@) + known_pairs(v, b, k as int) == known_pairs(v, b, 0),
        decreases list@.len() - k,
    {
        assert(v[k as int] == list@[k as int]@);
        let ghost before = viewed(out@);
        let ghost rest = known_pairs(v, b, k + 1);
        if bone_index(bones, list[k].a.as_str()).is_some() && bone_index(
            bones,
            list[k].b.as_str(),
        ).is_some() {
            out.push(Pair { a: list[k].a.clone(), b: list[k].b.clone() });
            assert(before + (seq![v[k as int]] + rest) =~= viewed(out@) + rest);
        }
        k = k + 1;
    }
    assert(viewed(out@) + known_pairs(v, b, k as int) =~= viewed(out@));
    out
}

/// A mesh for a distance without the bones that are not there.
pub open spec fn lod_done(l: LodModelView, bones: Seq<BoneView>) -> LodModelView {
    LodModelView {
        bone_tree_collapse: known_names(l.bone_tree_collapse, bones, 0),
        replace_bone: known_pairs(l.replace_bone, bones, 0),
        ..l
    }
}

/// Meshes for distances without the bones that are not there.
pub open spec fn lods_done(list: Seq<LodModelView>, bones: Seq<BoneView>) -> Seq<LodModelView> {
    Seq::new(list.len(), |i: int| lod_done(list[i], bones))
}

/// A mesh with the meshes for distances that belong to all.
pub open spec fn model_done(
    m: BodyModelView,
    pending: Seq<LodModelView>,
    bones: Seq<BoneView>,
) -> BodyModelView {
    BodyModelView { lods: lods_done(m.lods + pending, bones), ..m }
}

/// Meshes with the meshes for distances that belong to all.
pub open spec fn models_done(
    list: Seq<BodyModelView>,
    pending: Seq<LodModelView>,
    bones: Seq<BoneView>,
) -> Seq<BodyModelView> {
    Seq::new(list.len(), |i: int| model_done(list[i], pending, bones))
}

/// Parts of the body with the meshes for distances that belong to all.
pub open spec fn parts_done(
    list: Seq<BodyPartView>,
    pending: Seq<LodModelView>,
    bones: Seq<BoneView>,
) -> Seq<BodyPartView> {
    Seq::new(
        list.len(),
        |i: int| BodyPartView { models: models_done(list[i].models, pending, bones), ..list[i] },
    )
}

/// Completes a mesh for a distance.
fn finish_lod(l: &LodModel, bones: &Vec<Bone>) -> (r: LodModel)
    ensures
        r@ == lod_done(l@, viewed(bones@)),
{
    let c: LodModel = l.copy();
    LodModel {
        bone_tree_collapse: keep_names(&l.bone_tree_collapse, bones),
        replace_bone: keep_pairs(&l.replace_bone, bones),
        ..c
    }
}

/// Completes meshes for distances.
fn finish_lods(list: &Vec<LodModel>, pending: &Vec<LodModel>, bones: &Vec<Bone>) -> (r: Vec<
    LodModel,
>)
    ensures
        viewed(r@) == lods_done(viewed(list@) + viewed(pending@), viewed(bones@)),
{
    let ghost want = lods_done(viewed(list@) + viewed(pending@), viewed(bones@));
    let mut out: Vec<LodModel> = Vec::new();
    let mut k: usize = 0;
    while k < list.len()
        invariant
            k <= list@.len(),
            want == lods_done(viewed(list@) + viewed(pending@), viewed(bones@)),
            viewed(out@) == want.take(k as int),
        decreases list@.len() - k,
    {
        let l: LodModel = finish_lod(&list[k], bones);
        assert(l@ == want[k as int]);
        out.push(l);
        assert(viewed(out@) =~= want.take(k + 1));
        k = k + 1;
    }
    let mut p: usize = 0;
    while p < pending.len()
        invariant
            p <= pending@.len(),
            want == lods_done(viewed(list@) + viewed(pending@), viewed(bones@)),
            viewed(out@) == want.take(list@.len() + p),
        decreases pending@.len() - p,
    {
        let l: LodModel = finish_lod(&pending[p], bones);
        assert((viewed(list@) + viewed(pending@))[list@.len() + p] == viewed(pending@)[p as int]);
        assert(l@ == want[list@.len() + p]);
        out.push(l);
        assert(viewed(out@) =~= want.take(list@.len() + p + 1));
        p = p + 1;
    }
    assert(viewed(out@) =~= want);
    out
}

/// Completes meshes.
fn finish_models(list: &mut Vec<BodyModel>, pending: &Vec<LodModel>, bones: &Vec<Bone>)
    ensures
        viewed(final(list)@) == models_done(
            viewed(old(list)@),
            viewed(pending@),
            viewed(bones@),
        ),
{
    let ghost start = viewed(list@);
    let ghost want = models_done(start, viewed(pending@), viewed(bones@));
    let total: usize = list.len();
    let mut k: usize = 0;
    while k < total
        invariant
            total == list@.len() == start.len(),
            k <= total,
            want == models_done(start, viewed(pending@), viewed(bones@)),
            forall|j: int|
                0 <= j < total ==> #[trigger] list@[j]@ == if j < k {
                    want[j]
                } else {
                    start[j]
                },
        decreases total - k,
    {
        assert(list@[k as int]@ == start[k as int]);
        let lods: Vec<LodModel> = finish_lods(&list[k].lods, pending, bones);
        list[k].lods = lods;
        assert(list@[k as int]@ == want[k as int]);
        k = k + 1;
    }
    assert(viewed(list@) =~= want);
}

/// Completes parts of the body.
fn finish_parts(list: &mut Vec<BodyPart>, pending: &Vec<LodModel>, bones: &Vec<Bone>)
    ensures
        viewed(final(list)@) == parts_done(
            viewed(old(list)@),
            viewed(pending@),
            viewed(bones@),
        ),
{
    let ghost start = viewed(list@);
    let ghost want = parts_done(start, viewed(pending@), viewed(bones@));
    let total: usize = list.len();
    let mut k: usize = 0;
    while k < total
        invariant
            total == list@.len() == start.len(),
            k <= total,
            want == parts_done(start, viewed(pending@), viewed(bones@)),
            forall|j: int|
                0 <= j < total ==> #[trigger] list@[j]@ == if j < k {
                    want[j]
                } else {
                    start[j]
                },
        decreases total - k,
    {
        assert(list@[k as int]@ == start[k as int]);
        finish_models(&mut list[k].models, pending, bones);
        assert(list@[k as int]@ == want[k as int]);
        k = k + 1;
    }
    assert(viewed(list@) =~= want);
}

/// The place behind the last `c` among the first `n` characters; 0 where there is none.
pub open spec fn behind_last(s: Seq<char>, c: char, n: int) -> int
    decreases n,
{
    if n <= 0 || n > s.len() {
        0
    } else if s[n - 1] == c {
        n
    } else {
        behind_last(s, c, n - 1)
    }
}

/// The name of a file, without its directory and its extension.
pub open spec fn stem(path: Seq<char>) -> Seq<char> {
    let base = path.skip(behind_last(path, '/', path.len() as int));
    let dot = behind_last(base, '.', base.len() as int);
    if base.len() == 0 || base == "."@ || base == ".."@ {
        "model"@
    } else if dot <= 1 {
        base
    } else {
        base.take(dot - 1)
    }
}

/// The directory of a file.
pub open spec fn directory(path: Seq<char>) -> Seq<char> {
    let k = behind_last(path, '/', path.len() as int);
    if k == 1 {
        "/"@
    } else if k == 0 {
        Seq::empty()
    } else {
        path.take(k - 1)
    }
}

/// The place behind the last `c`.
fn find_behind_last(s: &Vec<char>, c: char) -> (r: usize)
    ensures
        r == behind_last(s@, c, s@.len() as int),
        r <= s@.len(),
{
    let mut n: usize = s.len();
    while n > 0
        invariant
            n <= s@.len(),
            behind_last(s@, c, n as int) == behind_last(s@, c, s@.len() as int),
        decreases n,
    {
        if s[n - 1] == c {
            return n;
        }
        n = n - 1;
    }
    0
}

/// The name of a file, without its directory and its extension.
fn file_stem(path: &str) -> (r: String)
    ensures
        r@ == stem(path@),
{
    let p: Vec<char> = chars_of(path);
    let base: String = string_of(&p, find_behind_last(&p, '/'), p.len());
    assert(base@ =~= path@.skip(behind_last(path@, '/', path@.len() as int)));
    if is_blank(base.as_str()) || same(base.as_str(), ".") || same(base.as_str(), "..") {
        return "model".to_owned();
    }
    let c: Vec<char> = chars_of(base.as_str());
    let dot: usize = find_behind_last(&c, '.');
    if dot <= 1 {
        return base;
    }
    let r: String = string_of(&c, 0, dot - 1);
    assert(r@ =~= base@.take(dot - 1));
    r
}

/// The directory of a file.
fn parent_directory(path: &str) -> (r: String)
    ensures
        r@ == directory(path@),
{
    let p: Vec<char> = chars_of(path);
    let k: usize = find_behind_last(&p, '/');
    if k == 1 {
        return "/".to_owned();
    }
    if k == 0 {
        return no_name();
    }
    let r: String = string_of(&p, 0, k - 1);
    assert(r@ =~= path@.take(k - 1));
    r
}

/// The bones of a model.
pub open spec fn all_bones(d: ScriptView, meshes: Seq<SmdView>) -> Seq<BoneView> {
    parents_first(
        with_props(
            completed_all(table(d.import_bones, meshes), meshes, d.bonemerge_names),
            d.joint_surface_props,
            0,
        ),
    )
}

/// The model that a script describes, with its meshes.
pub open spec fn model_of(
    d: ScriptView,
    files: Seq<Seq<char>>,
    meshes: Seq<SmdView>,
    main_path: Seq<char>,
) -> ModelDescView {
    let bones = all_bones(d, meshes);
    let group = first_group(d.texture_groups);
    let order = textures(group, meshes);
    let extra = d.gflags & !FLAG_STATIC_PROP;
    ModelDescView {
        name: if d.desc.name.len() == 0 {
            stem(main_path) + ".mdl"@
        } else {
            d.desc.name
        },
        extra_flags: if extra != 0 {
            Some(extra)
        } else {
            d.desc.extra_flags
        },
        bones,
        materials: MaterialsView {
            textures: order,
            skin_families: if group.len() == 0 {
                d.desc.materials.skin_families
            } else {
                skins(order, group)
            },
            ..d.desc.materials
        },
        sequences: sequences_done(
            d.desc.sequences,
            d.desc.animations,
            files,
            meshes,
            d.section_frames,
        ),
        bodyparts: parts_done(d.desc.bodyparts, d.pending_lods, bones),
        ..d.desc
    }
}

/// What a script comes to at its end.
pub open spec fn finished(d: ScriptView, st: LexState, main_path: Seq<char>) -> Result<
    ModelDescView,
    Seq<ErrorView>,
> {
    let files = distinct(d.referenced_files);
    match meshes_of(st, files) {
        Err(e) => Err(e),
        Ok(meshes) => Ok(model_of(d, files, meshes, main_path)),
    }
}

/// The bones that meshes for distances name and that are not there, in order and each once.
pub open spec fn dropped(d: ScriptView, st: LexState) -> Seq<Seq<char>> {
    match meshes_of(st, distinct(d.referenced_files)) {
        Err(_) => Seq::empty(),
        Ok(meshes) => parts_dropped(
            Seq::empty(),
            d.desc.bodyparts,
            d.pending_lods,
            all_bones(d, meshes),
            d.desc.bodyparts.len() as int,
        ),
    }
}

/// The bones of a model.
fn collect_bones(d: &Script, meshes: &Vec<Smd>) -> (r: Vec<Bone>)
    ensures
        viewed(r@) == all_bones(d@, viewed(meshes@)),
{
    let known: Vec<Bone> = build_table(&d.import_bones, meshes);
    let mut bones: Vec<Bone> = complete(&known, meshes, &d.bonemerge_names);
    set_props(&mut bones, &d.joint_surface_props);
    sort_parents_first(&bones)
}

/// Sets the materials and the skins.
fn set_materials(d: &mut Script, meshes: &Vec<Smd>)
    ensures
        ({
            let group = first_group(old(d)@.texture_groups);
            let order = textures(group, viewed(meshes@));
            let before = old(d)@.desc.materials;
            final(d)@ == ScriptView {
                desc: ModelDescView {
                    materials: MaterialsView {
                        textures: order,
                        skin_families: if group.len() == 0 {
                            before.skin_families
                        } else {
                            skins(order, group)
                        },
                        ..before
                    },
                    ..old(d)@.desc
                },
                ..old(d)@
            }
        }),
{
    if d.texture_groups.len() == 0 {
        let none: Vec<Vec<String>> = Vec::new();
        assert(rows(none@) =~= Seq::empty());
        d.desc.materials.textures = list_textures(&none, meshes);
    } else {
        assert(d@.texture_groups[0] == d.texture_groups@[0]@);
        let order: Vec<String> = list_textures(&d.texture_groups[0].families, meshes);
        if d.texture_groups[0].families.len() > 0 {
            d.desc.materials.skin_families = build_skins(
                &order,
                &d.texture_groups[0].families,
            );
        }
        d.desc.materials.textures = order;
    }
}

/// Ends a script: reads the meshes that it needs, and completes the model. The model is moved out
/// of the script.
fn finish(lex: &Lexer, d: &mut Script, main_path: &str, skipped: &mut Vec<String>) -> (r: Result<
    ModelDesc,
    Vec<QcError>,
>)
    ensures
        r is Ok ==> viewed(final(skipped)@) == dropped(old(d)@, lex@),
        went(r, finished(old(d)@, lex@, main_path@)),
        final(d)@.missing_files == old(d)@.missing_files,
{
    let files: Vec<String> = once_each(&d.referenced_files);
    let meshes: Vec<Smd> = match load_meshes(lex, &files) {
        Ok(m) => m,
        Err(e) => {
            return Err(e);
        },
    };
    assert(viewed(meshes@).len() == viewed(files@).len());
    let bones: Vec<Bone> = collect_bones(d, &meshes);
    *skipped = dropped_bones(&d.desc.bodyparts, &d.pending_lods, &bones);
    set_materials(d, &meshes);
    finish_sequences(
        &mut d.desc.sequences,
        &d.desc.animations,
        &files,
        &meshes,
        d.section_frames,
    );
    finish_parts(&mut d.desc.bodyparts, &d.pending_lods, &bones);
    d.desc.bones = bones;
    let extra: i32 = d.gflags & !FLAG_STATIC_PROP;
    if extra != 0 {
        d.desc.extra_flags = Some(extra);
    }
    if is_blank(d.desc.name.as_str()) {
        let mut name: String = file_stem(main_path);
        name.push_str(".mdl");
        d.desc.name = name;
    }
    let mut done: ModelDesc = new_model();
    std::mem::swap(&mut done, &mut d.desc);
    Ok(done)
}

/// What the commands of a script come to.
pub open spec fn commands(d: ScriptView, s: At) -> (ScriptView, At)
    decreases left_at(s),
{
    let (t, n) = any_token(s);
    match t {
        None => (d, n),
        Some(t) => {
            let (d, n) = command(d, t, n);
            if went_on(n, s) {
                commands(d, n)
            } else {
                (d, n)
            }
        },
    }
}

/// The model that a script describes, from where the lexer stands; what is wrong with it, where
/// something is.
pub open spec fn described(d: ScriptView, st: LexState, main_path: Seq<char>) -> Result<
    ModelDescView,
    Seq<ErrorView>,
> {
    let (d, s) = commands(d, Ok(st));
    match s {
        Err(e) => Err(seq![e]),
        Ok(st) => finished(d, st, main_path),
    }
}

/// Reads scripts.
pub struct Parser {
    /// The lexer.
    pub lex: Lexer,
    /// The path of the script.
    pub main_path: String,
    /// What the commands read so far come to.
    pub script: Script,
    /// The bones that meshes for distances name and that are not there, in order and each once.
    pub skipped_bones: Vec<String>,
}

impl Parser {
    /// A parser that reads from a lexer. `main_path` gives a model without a name its name.
    pub fn new(lex: Lexer, main_path: &str) -> (r: Self)
        ensures
            r.lex == lex,
            r.main_path@ == main_path@,
            r.script@ == no_script(),
            r.skipped_bones@.len() == 0,
    {
        Parser {
            lex,
            main_path: main_path.to_owned(),
            script: new_script(),
            skipped_bones: Vec::new(),
        }
    }

    /// Reads the script to its end. The model is moved out of the parser.
    pub fn run(&mut self) -> (r: Result<ModelDesc, Vec<QcError>>)
        requires
            old(self).lex.wf(),
        ensures
            final(self).lex.wf(),
            went(
                r,
                described(old(self).script@, old(self).lex@, old(self).main_path@),
            ),
            commands(old(self).script@, Ok(old(self).lex@)).1 is Ok
                ==> final(self).script@.missing_files == commands(
                old(self).script@,
                Ok(old(self).lex@),
            ).0.missing_files,
            r is Ok ==> viewed(final(self).skipped_bones@) == match commands(
                old(self).script@,
                Ok(old(self).lex@),
            ) {
                (d, Ok(st)) => dropped(d, st),
                _ => Seq::empty(),
            },
    {
        let ghost want = commands(self.script@, Ok(self.lex@));
        loop
            invariant_except_break
                self.main_path == old(self).main_path,
                commands(self.script@, Ok(self.lex@)) == want,
            invariant
                self.lex.wf(),
                want == commands(old(self).script@, Ok(old(self).lex@)),
            ensures
                self.main_path == old(self).main_path,
                want == (self.script@, Ok::<LexState, ErrorView>(self.lex@)),
            decreases left(self.lex@),
        {
            let next: Option<Token> = match self.lex.next_token(true) {
                Ok(t) => t,
                Err(e) => {
                    let mut errors: Vec<QcError> = Vec::new();
                    errors.push(e);
                    assert(viewed(errors@) =~= seq![e@]);
                    return Err(errors);
                },
            };
            let t: Token = match next {
                Some(t) => t,
                None => {
                    break;
                },
            };
            match dispatch(&mut self.lex, &mut self.script, &t) {
                Ok(_) => {},
                Err(e) => {
                    let mut errors: Vec<QcError> = Vec::new();
                    errors.push(e);
                    assert(viewed(errors@) =~= seq![e@]);
                    return Err(errors);
                },
            }
        }
        finish(
            &self.lex,
            &mut self.script,
            self.main_path.as_str(),
            &mut self.skipped_bones,
        )
    }
}

/// The model that a text describes.
pub open spec fn described_by_text(
    text: Seq<char>,
    qdir: Seq<char>,
    sources: Seq<super::lexer::SourceView>,
) -> Result<ModelDescView, Seq<ErrorView>> {
    described(
        no_script(),
        started(no_text(qdir, sources), "<memory>"@, vstd::utf8::encode_utf8(text)),
        "<memory>"@,
    )
}

/// Reads a script in memory. `qdir` is the directory that the paths in it start from; `sources` are
/// the files that it can need.
pub fn parse_qc_str(text: &str, qdir: &str, sources: Vec<Source>) -> (r: Result<
    ModelDesc,
    Vec<QcError>,
>)
    ensures
        went(r, described_by_text(text@, qdir@, source_views(sources@))),
{
    let mut lex: Lexer = Lexer::new(qdir.to_owned(), sources);
    lex.load_from_memory(text, "<memory>");
    let mut parser: Parser = Parser::new(lex, "<memory>");
    parser.run()
}

/// The model that the script at a path describes. The paths in it start from its directory.
pub open spec fn described_by_file(
    path: Seq<char>,
    sources: Seq<super::lexer::SourceView>,
) -> Result<ModelDescView, Seq<ErrorView>> {
    match find_source(sources, path, 0) {
        None => Err(seq![ErrorView { file: path, line: 0, message: "读不到 QC 文件"@ }]),
        Some(i) => match sources[i].failure {
            Some(f) => Err(
                seq![ErrorView { file: path, line: 0, message: "读不到 QC 文件："@ + f.reason }],
            ),
            None => {
                let st = no_text(directory(path), sources);
                described(
                    no_script(),
                    LexState {
                        loaded: st.loaded.push(path),
                        ..started(st, path, sources[i].bytes)
                    },
                    path,
                )
            },
        },
    }
}

/// Reads the script at a path. `sources` are the files that it can need, itself among them.
pub fn parse_qc_file(path: &str, sources: Vec<Source>) -> (r: Result<ModelDesc, Vec<QcError>>)
    ensures
        went(r, described_by_file(path@, source_views(sources@))),
{
    let mut lex: Lexer = Lexer::new(parent_directory(path), sources);
    match lex.load(path) {
        Ok(_) => {},
        Err(e) => {
            let mut errors: Vec<QcError> = Vec::new();
            errors.push(e);
            assert(viewed(errors@) =~= seq![e@]);
            return Err(errors);
        },
    }
    let mut parser: Parser = Parser::new(lex, path);
    parser.run()
}

/// The meshes for distances name only bones that are there.
pub open spec fn names_known(l: LodModelView, bones: Seq<BoneView>) -> bool {
    &&& forall|i: int|
        0 <= i < l.bone_tree_collapse.len() ==> find_bone(
            bones,
            #[trigger] l.bone_tree_collapse[i],
            0,
        ) is Some
    &&& forall|i: int|
        0 <= i < l.replace_bone.len() ==> find_bone(bones, (#[trigger] l.replace_bone[i]).a, 0)
            is Some && find_bone(bones, l.replace_bone[i].b, 0) is Some
}

proof fn known_names_known(list: Seq<Seq<char>>, bones: Seq<BoneView>, k: int)
    ensures
        forall|i: int|
            0 <= i < known_names(list, bones, k).len() ==> find_bone(
                bones,
                #[trigger] known_names(list, bones, k)[i],
                0,
            ) is Some,
    decreases list.len() - k,
{
    if 0 <= k < list.len() {
        known_names_known(list, bones, k + 1);
        let rest = known_names(list, bones, k + 1);
        assert forall|i: int| 0 <= i < known_names(list, bones, k).len() implies find_bone(
            bones,
            #[trigger] known_names(list, bones, k)[i],
            0,
        ) is Some by {
            if find_bone(bones, list[k], 0) is Some {
                if i > 0 {
                    assert(known_names(list, bones, k)[i] == rest[i - 1]);
                }
            } else {
                assert(known_names(list, bones, k)[i] == rest[i]);
            }
        }
    }
}

proof fn known_pairs_known(list: Seq<PairView>, bones: Seq<BoneView>, k: int)
    ensures
        forall|i: int|
            0 <= i < known_pairs(list, bones, k).len() ==> find_bone(
                bones,
                (#[trigger] known_pairs(list, bones, k)[i]).a,
                0,
            ) is Some && find_bone(bones, known_pairs(list, bones, k)[i].b, 0) is Some,
    decreases list.len() - k,
{
    if 0 <= k < list.len() {
        known_pairs_known(list, bones, k + 1);
        let all = known_pairs(list, bones, k);
        let rest = known_pairs(list, bones, k + 1);
        assert forall|i: int| 0 <= i < all.len() implies find_bone(
            bones,
            (#[trigger] all[i]).a,
            0,
        ) is Some && find_bone(bones, all[i].b, 0) is Some by {
            if find_bone(bones, list[k].a, 0) is Some && find_bone(bones, list[k].b, 0) is Some {
                if i > 0 {
                    assert(all[i] == rest[i - 1]);
                }
            } else {
                assert(all[i] == rest[i]);
            }
        }
    }
}

/// In a finished model the meshes for distances name only bones of the model.
pub proof fn distances_name_known_bones(
    d: ScriptView,
    files: Seq<Seq<char>>,
    meshes: Seq<SmdView>,
    main_path: Seq<char>,
    part: int,
    m: int,
    l: int,
)
    requires
        ({
            let parts = model_of(d, files, meshes, main_path).bodyparts;
            &&& 0 <= part < parts.len()
            &&& 0 <= m < parts[part].models.len()
            &&& 0 <= l < parts[part].models[m].lods.len()
        }),
    ensures
        ({
            let model = model_of(d, files, meshes, main_path);
            names_known(model.bodyparts[part].models[m].lods[l], model.bones)
        }),
{
    let bones = all_bones(d, meshes);
    let before = d.desc.bodyparts[part].models[m].lods + d.pending_lods;
    known_names_known(before[l].bone_tree_collapse, bones, 0);
    known_pairs_known(before[l].replace_bone, bones, 0);
}

/// A finished model has each bone once, and each behind its parent. The parents must not go round
/// in a circle.
pub proof fn models_have_bones_in_order(d: ScriptView, meshes: Seq<SmdView>, ranks: Seq<nat>)
    requires
        super::bones::ranks_fall(
            with_props(
                completed_all(table(d.import_bones, meshes), meshes, d.bonemerge_names),
                d.joint_surface_props,
                0,
            ),
            ranks,
        ),
    ensures
        ({
            let bones = all_bones(d, meshes);
            &&& super::bones::names_differ(bones)
            &&& super::bones::behind_parents(
                with_props(
                    completed_all(table(d.import_bones, meshes), meshes, d.bonemerge_names),
                    d.joint_surface_props,
                    0,
                ),
                bones,
            )
            &&& bones.len() == table(d.import_bones, meshes).len()
        }),
{
    let known = table(d.import_bones, meshes);
    let done = with_props(
        completed_all(known, meshes, d.bonemerge_names),
        d.joint_surface_props,
        0,
    );
    super::bones::bones_are_listed_once(d.import_bones, meshes);
    super::bones::completing_keeps_the_names(
        known,
        meshes,
        d.bonemerge_names,
        d.joint_surface_props,
    );
    assert forall|i: int, j: int| 0 <= i < j < done.len() implies lower(#[trigger] done[i].name)
        != lower(#[trigger] done[j].name) by {
        assert(done[i].name == known[i].name);
        assert(done[j].name == known[j].name);
    }
    super::bones::parents_come_first(done, ranks);
}

} // verus!
