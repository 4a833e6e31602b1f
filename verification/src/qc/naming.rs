//! Which command of a script is which.
use vstd::prelude::*;

use super::body::{body, bodygroup, model};
use super::collision::{animatedfriction, collision_pair, collisionmodel, jointconstrain};
use super::dispatch::{command, FLAG_STATIC_PROP};
use super::jiggle::jigglebone;
use super::lexer::TokenView;
use super::lods::lod;
use super::model::{ModelDescView, PhysicsView, ScriptView};
use super::procedural::proceduralbones;
use super::read::{int_on, num, vector, word, At};
use super::sequence::{animation, declaresequence, sequence};
use super::settings::{
    attachment, bonemerge, cd, contents, definebone, hbox, hboxset, ikautoplaylock, ikchain,
    joined_model, jointsurfaceprop, modelname, popd, poseparameter, pushd, sectionframes,
    texturegroup,
};
use super::weights::weightlist;
use crate::text::lower;

verus! {

/// How the commands are spelled, as far as it tells them apart.
proof fn spellings()
    ensures
        "$modelname"@.len() == 10 && "$modelname"@[6] == 'n',
        "$cd"@.len() == 3,
        "$pushd"@.len() == 6 && "$pushd"@[1] == 'p',
        "$cdmaterials"@.len() == 12 && "$cdmaterials"@[1] == 'c',
        "$contents"@.len() == 9 && "$contents"@[1] == 'c',
        "$sectionframes"@.len() == 14 && "$sectionframes"@[1] == 's',
        "$poseparameter"@.len() == 14 && "$poseparameter"@[1] == 'p',
        "$texturegroup"@.len() == 13 && "$texturegroup"@[1] == 't',
        "$definebone"@.len() == 11 && "$definebone"@[1] == 'd' && "$definebone"@[2] == 'e',
        "$bonemerge"@.len() == 10 && "$bonemerge"@[6] == 'e',
        "$attachment"@.len() == 11 && "$attachment"@[1] == 'a' && "$attachment"@[2] == 't',
        "$hboxset"@.len() == 8 && "$hboxset"@[3] == 'o',
        "$hbox"@.len() == 5 && "$hbox"@[1] == 'h' && "$hbox"@[2] == 'b',
        "$ikchain"@.len() == 8 && "$ikchain"@[3] == 'c',
        "$ikautoplaylock"@.len() == 15 && "$ikautoplaylock"@[1] == 'i',
        "$includemodel"@.len() == 13 && "$includemodel"@[1] == 'i',
        "$jointsurfaceprop"@.len() == 17 && "$jointsurfaceprop"@[1] == 'j',
        "$body"@.len() == 5 && "$body"@[1] == 'b' && "$body"@[2] == 'o',
        "$bodygroup"@.len() == 10 && "$bodygroup"@[6] == 'r',
        "$model"@.len() == 6 && "$model"@[1] == 'm',
        "$sequence"@.len() == 9 && "$sequence"@[1] == 's',
        "$animation"@.len() == 10 && "$animation"@[6] == 't',
        "$declaresequence"@.len() == 16 && "$declaresequence"@[1] == 'd',
        "$lod"@.len() == 4,
        "$shadowlod"@.len() == 10 && "$shadowlod"@[6] == 'w',
        "$jigglebone"@.len() == 11 && "$jigglebone"@[1] == 'j' && "$jigglebone"@[2] == 'i',
        "$proceduralbones"@.len() == 16 && "$proceduralbones"@[1] == 'p',
        "$collisionmodel"@.len() == 15 && "$collisionmodel"@[1] == 'c',
        "$collisionjoints"@.len() == 16 && "$collisionjoints"@[1] == 'c',
        "$weightlist"@.len() == 11 && "$weightlist"@[1] == 'w' && "$weightlist"@[2] == 'e',
        "$popd"@.len() == 5 && "$popd"@[1] == 'p' && "$popd"@[2] == 'o',
        "$scale"@.len() == 6 && "$scale"@[1] == 's',
        "$surfaceprop"@.len() == 12 && "$surfaceprop"@[1] == 's',
        "$eyeposition"@.len() == 12 && "$eyeposition"@[1] == 'e',
        "$illumposition"@.len() == 14 && "$illumposition"@[1] == 'i',
        "$maxeyedeflection"@.len() == 17 && "$maxeyedeflection"@[1] == 'm',
        "$bbox"@.len() == 5 && "$bbox"@[1] == 'b' && "$bbox"@[2] == 'b',
        "$cbox"@.len() == 5 && "$cbox"@[1] == 'c' && "$cbox"@[2] == 'b',
        "$staticprop"@.len() == 11 && "$staticprop"@[1] == 's' && "$staticprop"@[2] == 't',
        "$realignbones"@.len() == 13 && "$realignbones"@[1] == 'r',
        "$skipboneinbbox"@.len() == 15 && "$skipboneinbbox"@[1] == 's',
        "$animblocksize"@.len() == 14 && "$animblocksize"@[1] == 'a',
        "$keyvalues"@.len() == 10 && "$keyvalues"@[6] == 'l',
        "$jointconstrain"@.len() == 15 && "$jointconstrain"@[1] == 'j',
        "$animatedfriction"@.len() == 17 && "$animatedfriction"@[1] == 'a',
        "$noselfcollisions"@.len() == 17 && "$noselfcollisions"@[1] == 'n',
        "$jointcollide"@.len() == 13 && "$jointcollide"@[1] == 'j',
        "$jointmerge"@.len() == 11 && "$jointmerge"@[1] == 'j' && "$jointmerge"@[2] == 'o',
        "$defaultweightlist"@.len() == 18,
        "$definevariable"@.len() == 15 && "$definevariable"@[1] == 'd',
        "$redefinevariable"@.len() == 17 && "$redefinevariable"@[1] == 'r',
        "$fakevta"@.len() == 8 && "$fakevta"@[3] == 'k',
        "$nekomodel"@.len() == 10 && "$nekomodel"@[6] == 'o',
        "$opaque"@.len() == 7,
        "$mostlyopaque"@.len() == 13 && "$mostlyopaque"@[1] == 'm',
        "$noforcedfade"@.len() == 13 && "$noforcedfade"@[1] == 'n',
        "$casttextureshadows"@.len() == 19,
        "$ambientboost"@.len() == 13 && "$ambientboost"@[1] == 'a',
        "$donotcastshadows"@.len() == 17 && "$donotcastshadows"@[1] == 'd',
        "$forcephonemecrossfade"@.len() == 22,
        "$constantdirectionallight"@.len() == 25,
        "$mass"@.len() == 5 && "$mass"@[1] == 'm' && "$mass"@[2] == 'a',
        "$concave"@.len() == 8 && "$concave"@[3] == 'n',
        "$damping"@.len() == 8 && "$damping"@[3] == 'm',
        "$rotdamping"@.len() == 11 && "$rotdamping"@[1] == 'r' && "$rotdamping"@[2] == 'o',
        "$inertia"@.len() == 8 && "$inertia"@[3] == 'e',
        "$drag"@.len() == 5 && "$drag"@[1] == 'd' && "$drag"@[2] == 'r',
        "$rootbone"@.len() == 9 && "$rootbone"@[1] == 'r',
        "$automass"@.len() == 9 && "$automass"@[1] == 'a',
        "$masscenter"@.len() == 11 && "$masscenter"@[1] == 'm' && "$masscenter"@[2] == 'a',
        "$phyname"@.len() == 8 && "$phyname"@[3] == 'y',
        "$maxconvexpieces"@.len() == 16 && "$maxconvexpieces"@[1] == 'm',
{
    assert("$modelname"@.len() == 10 && "$modelname"@[6] == 'n') by {
        reveal_strlit("$modelname");
    }
    assert("$cd"@.len() == 3) by {
        reveal_strlit("$cd");
    }
    assert("$pushd"@.len() == 6 && "$pushd"@[1] == 'p') by {
        reveal_strlit("$pushd");
    }
    assert("$cdmaterials"@.len() == 12 && "$cdmaterials"@[1] == 'c') by {
        reveal_strlit("$cdmaterials");
    }
    assert("$contents"@.len() == 9 && "$contents"@[1] == 'c') by {
        reveal_strlit("$contents");
    }
    assert("$sectionframes"@.len() == 14 && "$sectionframes"@[1] == 's') by {
        reveal_strlit("$sectionframes");
    }
    assert("$poseparameter"@.len() == 14 && "$poseparameter"@[1] == 'p') by {
        reveal_strlit("$poseparameter");
    }
    assert("$texturegroup"@.len() == 13 && "$texturegroup"@[1] == 't') by {
        reveal_strlit("$texturegroup");
    }
    assert("$definebone"@.len() == 11 && "$definebone"@[1] == 'd' && "$definebone"@[2] == 'e') by {
        reveal_strlit("$definebone");
    }
    assert("$bonemerge"@.len() == 10 && "$bonemerge"@[6] == 'e') by {
        reveal_strlit("$bonemerge");
    }
    assert("$attachment"@.len() == 11 && "$attachment"@[1] == 'a' && "$attachment"@[2] == 't') by {
        reveal_strlit("$attachment");
    }
    assert("$hboxset"@.len() == 8 && "$hboxset"@[3] == 'o') by {
        reveal_strlit("$hboxset");
    }
    assert("$hbox"@.len() == 5 && "$hbox"@[1] == 'h' && "$hbox"@[2] == 'b') by {
        reveal_strlit("$hbox");
    }
    assert("$ikchain"@.len() == 8 && "$ikchain"@[3] == 'c') by {
        reveal_strlit("$ikchain");
    }
    assert("$ikautoplaylock"@.len() == 15 && "$ikautoplaylock"@[1] == 'i') by {
        reveal_strlit("$ikautoplaylock");
    }
    assert("$includemodel"@.len() == 13 && "$includemodel"@[1] == 'i') by {
        reveal_strlit("$includemodel");
    }
    assert("$jointsurfaceprop"@.len() == 17 && "$jointsurfaceprop"@[1] == 'j') by {
        reveal_strlit("$jointsurfaceprop");
    }
    assert("$body"@.len() == 5 && "$body"@[1] == 'b' && "$body"@[2] == 'o') by {
        reveal_strlit("$body");
    }
    assert("$bodygroup"@.len() == 10 && "$bodygroup"@[6] == 'r') by {
        reveal_strlit("$bodygroup");
    }
    assert("$model"@.len() == 6 && "$model"@[1] == 'm') by {
        reveal_strlit("$model");
    }
    assert("$sequence"@.len() == 9 && "$sequence"@[1] == 's') by {
        reveal_strlit("$sequence");
    }
    assert("$animation"@.len() == 10 && "$animation"@[6] == 't') by {
        reveal_strlit("$animation");
    }
    assert("$declaresequence"@.len() == 16 && "$declaresequence"@[1] == 'd') by {
        reveal_strlit("$declaresequence");
    }
    assert("$lod"@.len() == 4) by {
        reveal_strlit("$lod");
    }
    assert("$shadowlod"@.len() == 10 && "$shadowlod"@[6] == 'w') by {
        reveal_strlit("$shadowlod");
    }
    assert("$jigglebone"@.len() == 11 && "$jigglebone"@[1] == 'j' && "$jigglebone"@[2] == 'i') by {
        reveal_strlit("$jigglebone");
    }
    assert("$proceduralbones"@.len() == 16 && "$proceduralbones"@[1] == 'p') by {
        reveal_strlit("$proceduralbones");
    }
    assert("$collisionmodel"@.len() == 15 && "$collisionmodel"@[1] == 'c') by {
        reveal_strlit("$collisionmodel");
    }
    assert("$collisionjoints"@.len() == 16 && "$collisionjoints"@[1] == 'c') by {
        reveal_strlit("$collisionjoints");
    }
    assert("$weightlist"@.len() == 11 && "$weightlist"@[1] == 'w' && "$weightlist"@[2] == 'e') by {
        reveal_strlit("$weightlist");
    }
    assert("$popd"@.len() == 5 && "$popd"@[1] == 'p' && "$popd"@[2] == 'o') by {
        reveal_strlit("$popd");
    }
    assert("$scale"@.len() == 6 && "$scale"@[1] == 's') by {
        reveal_strlit("$scale");
    }
    assert("$surfaceprop"@.len() == 12 && "$surfaceprop"@[1] == 's') by {
        reveal_strlit("$surfaceprop");
    }
    assert("$eyeposition"@.len() == 12 && "$eyeposition"@[1] == 'e') by {
        reveal_strlit("$eyeposition");
    }
    assert("$illumposition"@.len() == 14 && "$illumposition"@[1] == 'i') by {
        reveal_strlit("$illumposition");
    }
    assert("$maxeyedeflection"@.len() == 17 && "$maxeyedeflection"@[1] == 'm') by {
        reveal_strlit("$maxeyedeflection");
    }
    assert("$bbox"@.len() == 5 && "$bbox"@[1] == 'b' && "$bbox"@[2] == 'b') by {
        reveal_strlit("$bbox");
    }
    assert("$cbox"@.len() == 5 && "$cbox"@[1] == 'c' && "$cbox"@[2] == 'b') by {
        reveal_strlit("$cbox");
    }
    assert("$staticprop"@.len() == 11 && "$staticprop"@[1] == 's' && "$staticprop"@[2] == 't') by {
        reveal_strlit("$staticprop");
    }
    assert("$realignbones"@.len() == 13 && "$realignbones"@[1] == 'r') by {
        reveal_strlit("$realignbones");
    }
    assert("$skipboneinbbox"@.len() == 15 && "$skipboneinbbox"@[1] == 's') by {
        reveal_strlit("$skipboneinbbox");
    }
    assert("$animblocksize"@.len() == 14 && "$animblocksize"@[1] == 'a') by {
        reveal_strlit("$animblocksize");
    }
    assert("$keyvalues"@.len() == 10 && "$keyvalues"@[6] == 'l') by {
        reveal_strlit("$keyvalues");
    }
    assert("$jointconstrain"@.len() == 15 && "$jointconstrain"@[1] == 'j') by {
        reveal_strlit("$jointconstrain");
    }
    assert("$animatedfriction"@.len() == 17 && "$animatedfriction"@[1] == 'a') by {
        reveal_strlit("$animatedfriction");
    }
    assert("$noselfcollisions"@.len() == 17 && "$noselfcollisions"@[1] == 'n') by {
        reveal_strlit("$noselfcollisions");
    }
    assert("$jointcollide"@.len() == 13 && "$jointcollide"@[1] == 'j') by {
        reveal_strlit("$jointcollide");
    }
    assert("$jointmerge"@.len() == 11 && "$jointmerge"@[1] == 'j' && "$jointmerge"@[2] == 'o') by {
        reveal_strlit("$jointmerge");
    }
    assert("$defaultweightlist"@.len() == 18) by {
        reveal_strlit("$defaultweightlist");
    }
    assert("$definevariable"@.len() == 15 && "$definevariable"@[1] == 'd') by {
        reveal_strlit("$definevariable");
    }
    assert("$redefinevariable"@.len() == 17 && "$redefinevariable"@[1] == 'r') by {
        reveal_strlit("$redefinevariable");
    }
    assert("$fakevta"@.len() == 8 && "$fakevta"@[3] == 'k') by {
        reveal_strlit("$fakevta");
    }
    assert("$nekomodel"@.len() == 10 && "$nekomodel"@[6] == 'o') by {
        reveal_strlit("$nekomodel");
    }
    assert("$opaque"@.len() == 7) by {
        reveal_strlit("$opaque");
    }
    assert("$mostlyopaque"@.len() == 13 && "$mostlyopaque"@[1] == 'm') by {
        reveal_strlit("$mostlyopaque");
    }
    assert("$noforcedfade"@.len() == 13 && "$noforcedfade"@[1] == 'n') by {
        reveal_strlit("$noforcedfade");
    }
    assert("$casttextureshadows"@.len() == 19) by {
        reveal_strlit("$casttextureshadows");
    }
    assert("$ambientboost"@.len() == 13 && "$ambientboost"@[1] == 'a') by {
        reveal_strlit("$ambientboost");
    }
    assert("$donotcastshadows"@.len() == 17 && "$donotcastshadows"@[1] == 'd') by {
        reveal_strlit("$donotcastshadows");
    }
    assert("$forcephonemecrossfade"@.len() == 22) by {
        reveal_strlit("$forcephonemecrossfade");
    }
    assert("$constantdirectionallight"@.len() == 25) by {
        reveal_strlit("$constantdirectionallight");
    }
    assert("$mass"@.len() == 5 && "$mass"@[1] == 'm' && "$mass"@[2] == 'a') by {
        reveal_strlit("$mass");
    }
    assert("$concave"@.len() == 8 && "$concave"@[3] == 'n') by {
        reveal_strlit("$concave");
    }
    assert("$damping"@.len() == 8 && "$damping"@[3] == 'm') by {
        reveal_strlit("$damping");
    }
    assert("$rotdamping"@.len() == 11 && "$rotdamping"@[1] == 'r' && "$rotdamping"@[2] == 'o') by {
        reveal_strlit("$rotdamping");
    }
    assert("$inertia"@.len() == 8 && "$inertia"@[3] == 'e') by {
        reveal_strlit("$inertia");
    }
    assert("$drag"@.len() == 5 && "$drag"@[1] == 'd' && "$drag"@[2] == 'r') by {
        reveal_strlit("$drag");
    }
    assert("$rootbone"@.len() == 9 && "$rootbone"@[1] == 'r') by {
        reveal_strlit("$rootbone");
    }
    assert("$automass"@.len() == 9 && "$automass"@[1] == 'a') by {
        reveal_strlit("$automass");
    }
    assert("$masscenter"@.len() == 11 && "$masscenter"@[1] == 'm' && "$masscenter"@[2] == 'a') by {
        reveal_strlit("$masscenter");
    }
    assert("$phyname"@.len() == 8 && "$phyname"@[3] == 'y') by {
        reveal_strlit("$phyname");
    }
    assert("$maxconvexpieces"@.len() == 16 && "$maxconvexpieces"@[1] == 'm') by {
        reveal_strlit("$maxconvexpieces");
    }
}

/// How the keys of collision models are spelled, as far as it tells them apart.
proof fn key_spellings()
    ensures
        "mass"@.len() == 4 && "mass"@[0] == 'm',
        "concave"@.len() == 7 && "concave"@[0] == 'c',
        "damping"@.len() == 7 && "damping"@[0] == 'd',
        "rotdamping"@.len() == 10 && "rotdamping"@[0] == 'r',
        "inertia"@.len() == 7 && "inertia"@[0] == 'i',
        "drag"@.len() == 4 && "drag"@[0] == 'd',
        "rootbone"@.len() == 8 && "rootbone"@[0] == 'r',
        "automass"@.len() == 8 && "automass"@[0] == 'a',
        "masscenter"@.len() == 10 && "masscenter"@[0] == 'm',
        "phyname"@.len() == 7 && "phyname"@[0] == 'p',
        "maxconvexpieces"@.len() == 15,
        "opaque"@.len() == 6,
        "mostlyopaque"@.len() == 12 && "mostlyopaque"@[0] == 'm',
        "noforcedfade"@.len() == 12 && "noforcedfade"@[0] == 'n',
        "casttextureshadows"@.len() == 18,
        "ambientboost"@.len() == 12 && "ambientboost"@[0] == 'a',
        "donotcastshadows"@.len() == 16,
        "forcephonemecrossfade"@.len() == 21,
{
    assert("mass"@.len() == 4 && "mass"@[0] == 'm') by {
        reveal_strlit("mass");
    }
    assert("concave"@.len() == 7 && "concave"@[0] == 'c') by {
        reveal_strlit("concave");
    }
    assert("damping"@.len() == 7 && "damping"@[0] == 'd') by {
        reveal_strlit("damping");
    }
    assert("rotdamping"@.len() == 10 && "rotdamping"@[0] == 'r') by {
        reveal_strlit("rotdamping");
    }
    assert("inertia"@.len() == 7 && "inertia"@[0] == 'i') by {
        reveal_strlit("inertia");
    }
    assert("drag"@.len() == 4 && "drag"@[0] == 'd') by {
        reveal_strlit("drag");
    }
    assert("rootbone"@.len() == 8 && "rootbone"@[0] == 'r') by {
        reveal_strlit("rootbone");
    }
    assert("automass"@.len() == 8 && "automass"@[0] == 'a') by {
        reveal_strlit("automass");
    }
    assert("masscenter"@.len() == 10 && "masscenter"@[0] == 'm') by {
        reveal_strlit("masscenter");
    }
    assert("phyname"@.len() == 7 && "phyname"@[0] == 'p') by {
        reveal_strlit("phyname");
    }
    assert("maxconvexpieces"@.len() == 15) by {
        reveal_strlit("maxconvexpieces");
    }
    assert("opaque"@.len() == 6) by {
        reveal_strlit("opaque");
    }
    assert("mostlyopaque"@.len() == 12 && "mostlyopaque"@[0] == 'm') by {
        reveal_strlit("mostlyopaque");
    }
    assert("noforcedfade"@.len() == 12 && "noforcedfade"@[0] == 'n') by {
        reveal_strlit("noforcedfade");
    }
    assert("casttextureshadows"@.len() == 18) by {
        reveal_strlit("casttextureshadows");
    }
    assert("ambientboost"@.len() == 12 && "ambientboost"@[0] == 'a') by {
        reveal_strlit("ambientboost");
    }
    assert("donotcastshadows"@.len() == 16) by {
        reveal_strlit("donotcastshadows");
    }
    assert("forcephonemecrossfade"@.len() == 21) by {
        reveal_strlit("forcephonemecrossfade");
    }
}

/// `$hbox` is told by its name.
pub proof fn names_hbox(d: ScriptView, t: TokenView, s: At)
    requires
        lower(t.text) == "$hbox"@,
    ensures
        command(d, t, s) == hbox(d, s),
{
    spellings();
}

/// `$hboxset` is told by its name.
pub proof fn names_hboxset(d: ScriptView, t: TokenView, s: At)
    requires
        lower(t.text) == "$hboxset"@,
    ensures
        command(d, t, s) == hboxset(d, s),
{
    spellings();
}

/// `$attachment` is told by its name.
pub proof fn names_attachment(d: ScriptView, t: TokenView, s: At)
    requires
        lower(t.text) == "$attachment"@,
    ensures
        command(d, t, s) == attachment(d, s),
{
    spellings();
}

/// `$definebone` is told by its name.
pub proof fn names_definebone(d: ScriptView, t: TokenView, s: At)
    requires
        lower(t.text) == "$definebone"@,
    ensures
        command(d, t, s) == definebone(d, s),
{
    spellings();
}

/// `$modelname` is told by its name.
pub proof fn names_modelname(d: ScriptView, t: TokenView, s: At)
    requires
        lower(t.text) == "$modelname"@,
    ensures
        command(d, t, s) == modelname(d, s),
{
    spellings();
}

/// `$sectionframes` is told by its name.
pub proof fn names_sectionframes(d: ScriptView, t: TokenView, s: At)
    requires
        lower(t.text) == "$sectionframes"@,
    ensures
        command(d, t, s) == sectionframes(d, s),
{
    spellings();
}

/// `$poseparameter` is told by its name.
pub proof fn names_poseparameter(d: ScriptView, t: TokenView, s: At)
    requires
        lower(t.text) == "$poseparameter"@,
    ensures
        command(d, t, s) == poseparameter(d, s),
{
    spellings();
}

/// `$bonemerge` is told by its name.
pub proof fn names_bonemerge(d: ScriptView, t: TokenView, s: At)
    requires
        lower(t.text) == "$bonemerge"@,
    ensures
        command(d, t, s) == bonemerge(d, s),
{
    spellings();
}

/// `$ikchain` is told by its name.
pub proof fn names_ikchain(d: ScriptView, t: TokenView, s: At)
    requires
        lower(t.text) == "$ikchain"@,
    ensures
        command(d, t, s) == ikchain(d, s),
{
    spellings();
}

/// `$ikautoplaylock` is told by its name.
pub proof fn names_ikautoplaylock(d: ScriptView, t: TokenView, s: At)
    requires
        lower(t.text) == "$ikautoplaylock"@,
    ensures
        command(d, t, s) == ikautoplaylock(d, s),
{
    spellings();
}

/// `$jointsurfaceprop` is told by its name.
pub proof fn names_jointsurfaceprop(d: ScriptView, t: TokenView, s: At)
    requires
        lower(t.text) == "$jointsurfaceprop"@,
    ensures
        command(d, t, s) == jointsurfaceprop(d, s),
{
    spellings();
}

/// `$declaresequence` is told by its name.
pub proof fn names_declaresequence(d: ScriptView, t: TokenView, s: At)
    requires
        lower(t.text) == "$declaresequence"@,
    ensures
        command(d, t, s) == declaresequence(d, s),
{
    spellings();
}

/// `$pushd` is told by its name.
pub proof fn names_pushd(d: ScriptView, t: TokenView, s: At)
    requires
        lower(t.text) == "$pushd"@,
    ensures
        command(d, t, s) == pushd(d, s),
{
    spellings();
}

/// `$cd` is told by its name.
pub proof fn names_cd(d: ScriptView, t: TokenView, s: At)
    requires
        lower(t.text) == "$cd"@,
    ensures
        command(d, t, s) == cd(d, s),
{
    spellings();
}

/// `$eyeposition` is told by its name.
pub proof fn names_eyeposition(d: ScriptView, t: TokenView, s: At)
    requires
        lower(t.text) == "$eyeposition"@,
    ensures
        command(d, t, s) == (
            ScriptView { desc: ModelDescView { eye_position: Some(vector(s).0), ..d.desc }, ..d },
            vector(s).1,
        ),
{
    spellings();
}

/// `$illumposition` is told by its name.
pub proof fn names_illumposition(d: ScriptView, t: TokenView, s: At)
    requires
        lower(t.text) == "$illumposition"@,
    ensures
        command(d, t, s) == (
            ScriptView { desc: ModelDescView { illum_position: Some(vector(s).0), ..d.desc }, ..d },
            vector(s).1,
        ),
{
    spellings();
}

/// `$bbox` is told by its name.
pub proof fn names_bbox(d: ScriptView, t: TokenView, s: At)
    requires
        lower(t.text) == "$bbox"@,
    ensures
        command(d, t, s) == (
            ScriptView {
                desc: ModelDescView {
                    hull_min: Some(vector(s).0),
                    hull_max: Some(vector(vector(s).1).0),
                    ..d.desc
                },
                ..d
            },
            vector(vector(s).1).1,
        ),
{
    spellings();
}

/// `$cbox` is told by its name.
pub proof fn names_cbox(d: ScriptView, t: TokenView, s: At)
    requires
        lower(t.text) == "$cbox"@,
    ensures
        command(d, t, s) == (d, vector(vector(s).1).1),
{
    spellings();
}

/// `$surfaceprop` is told by its name.
pub proof fn names_surfaceprop(d: ScriptView, t: TokenView, s: At)
    requires
        lower(t.text) == "$surfaceprop"@,
    ensures
        command(d, t, s) == (
            ScriptView { desc: ModelDescView { surface_prop: Some(word(s).0), ..d.desc }, ..d },
            word(s).1,
        ),
{
    spellings();
}

/// `$scale` is told by its name.
pub proof fn names_scale(d: ScriptView, t: TokenView, s: At)
    requires
        lower(t.text) == "$scale"@,
    ensures
        command(d, t, s) == (ScriptView { scale: num(s).0, ..d }, num(s).1),
{
    spellings();
}

/// `$maxeyedeflection` is told by its name.
pub proof fn names_maxeyedeflection(d: ScriptView, t: TokenView, s: At)
    requires
        lower(t.text) == "$maxeyedeflection"@,
    ensures
        command(d, t, s) == (
            ScriptView {
                desc: ModelDescView { max_eye_deflection: Some(num(s).0), ..d.desc },
                ..d
            },
            num(s).1,
        ),
{
    spellings();
}

/// `$animblocksize` is told by its name.
pub proof fn names_animblocksize(d: ScriptView, t: TokenView, s: At)
    requires
        lower(t.text) == "$animblocksize"@,
    ensures
        command(d, t, s) == (
            ScriptView {
                desc: ModelDescView { anim_block_size: Some(int_on(s).0), ..d.desc },
                ..d
            },
            int_on(s).1,
        ),
{
    spellings();
}

/// `$popd` is told by its name.
pub proof fn names_popd(d: ScriptView, t: TokenView, s: At)
    requires
        lower(t.text) == "$popd"@,
    ensures
        command(d, t, s) == (popd(d), s),
{
    spellings();
}

/// `$staticprop` is told by its name.
pub proof fn names_staticprop(d: ScriptView, t: TokenView, s: At)
    requires
        lower(t.text) == "$staticprop"@,
    ensures
        command(d, t, s) == (
            ScriptView {
                desc: ModelDescView { static_prop: true, ..d.desc },
                gflags: d.gflags | FLAG_STATIC_PROP,
                ..d
            },
            s,
        ),
{
    spellings();
}

/// `$realignbones` is told by its name.
pub proof fn names_realignbones(d: ScriptView, t: TokenView, s: At)
    requires
        lower(t.text) == "$realignbones"@,
    ensures
        command(d, t, s) == (
            ScriptView { desc: ModelDescView { realign_bones: true, ..d.desc }, ..d },
            s,
        ),
{
    spellings();
}

/// `$skipboneinbbox` is told by its name.
pub proof fn names_skipboneinbbox(d: ScriptView, t: TokenView, s: At)
    requires
        lower(t.text) == "$skipboneinbbox"@,
    ensures
        command(d, t, s) == (
            ScriptView { desc: ModelDescView { skip_bone_in_bbox: true, ..d.desc }, ..d },
            s,
        ),
{
    spellings();
}

/// `$jointconstrain` is told by its name.
pub proof fn names_jointconstrain(d: ScriptView, t: TokenView, s: At)
    requires
        lower(t.text) == "$jointconstrain"@,
    ensures
        command(d, t, s) == (
            ScriptView {
                desc: ModelDescView { physics: jointconstrain(d.desc.physics, s).0, ..d.desc },
                ..d
            },
            jointconstrain(d.desc.physics, s).1,
        ),
{
    spellings();
}

/// `$animatedfriction` is told by its name.
pub proof fn names_animatedfriction(d: ScriptView, t: TokenView, s: At)
    requires
        lower(t.text) == "$animatedfriction"@,
    ensures
        command(d, t, s) == (
            ScriptView {
                desc: ModelDescView { physics: animatedfriction(d.desc.physics, s).0, ..d.desc },
                ..d
            },
            animatedfriction(d.desc.physics, s).1,
        ),
{
    spellings();
}

/// `$jointcollide` is told by its name.
pub proof fn names_jointcollide(d: ScriptView, t: TokenView, s: At)
    requires
        lower(t.text) == "$jointcollide"@,
    ensures
        command(d, t, s) == (
            ScriptView {
                desc: ModelDescView {
                    physics: collision_pair(d.desc.physics, false, s).0,
                    ..d.desc
                },
                ..d
            },
            collision_pair(d.desc.physics, false, s).1,
        ),
{
    spellings();
}

/// `$jointmerge` is told by its name.
pub proof fn names_jointmerge(d: ScriptView, t: TokenView, s: At)
    requires
        lower(t.text) == "$jointmerge"@,
    ensures
        command(d, t, s) == (
            ScriptView {
                desc: ModelDescView {
                    physics: collision_pair(d.desc.physics, true, s).0,
                    ..d.desc
                },
                ..d
            },
            collision_pair(d.desc.physics, true, s).1,
        ),
{
    spellings();
}

/// `$noselfcollisions` is told by its name.
pub proof fn names_noselfcollisions(d: ScriptView, t: TokenView, s: At)
    requires
        lower(t.text) == "$noselfcollisions"@,
    ensures
        command(d, t, s) == (
            ScriptView {
                desc: ModelDescView {
                    physics: PhysicsView { no_self_collisions: true, ..d.desc.physics },
                    ..d.desc
                },
                ..d
            },
            s,
        ),
{
    spellings();
}

/// `$opaque` is told by its name.
pub proof fn names_opaque(d: ScriptView, t: TokenView, s: At)
    requires
        lower(t.text) == "$opaque"@,
    ensures
        command(d, t, s) == (ScriptView { gflags: d.gflags | 0x4, ..d }, s),
{
    spellings();
    key_spellings();
    assert(lower(t.text).skip(1) == "opaque"@ && lower(t.text)[0] == '$') by {
        reveal_strlit("$opaque");
        reveal_strlit("opaque");
        assert(lower(t.text).skip(1) =~= "opaque"@);
    }
}

/// `$mostlyopaque` is told by its name.
pub proof fn names_mostlyopaque(d: ScriptView, t: TokenView, s: At)
    requires
        lower(t.text) == "$mostlyopaque"@,
    ensures
        command(d, t, s) == (ScriptView { gflags: d.gflags | 0x8, ..d }, s),
{
    spellings();
    key_spellings();
    assert(lower(t.text).skip(1) == "mostlyopaque"@ && lower(t.text)[0] == '$') by {
        reveal_strlit("$mostlyopaque");
        reveal_strlit("mostlyopaque");
        assert(lower(t.text).skip(1) =~= "mostlyopaque"@);
    }
}

/// `$noforcedfade` is told by its name.
pub proof fn names_noforcedfade(d: ScriptView, t: TokenView, s: At)
    requires
        lower(t.text) == "$noforcedfade"@,
    ensures
        command(d, t, s) == (ScriptView { gflags: d.gflags | 0x800, ..d }, s),
{
    spellings();
    key_spellings();
    assert(lower(t.text).skip(1) == "noforcedfade"@ && lower(t.text)[0] == '$') by {
        reveal_strlit("$noforcedfade");
        reveal_strlit("noforcedfade");
        assert(lower(t.text).skip(1) =~= "noforcedfade"@);
    }
}

/// `$casttextureshadows` is told by its name.
pub proof fn names_casttextureshadows(d: ScriptView, t: TokenView, s: At)
    requires
        lower(t.text) == "$casttextureshadows"@,
    ensures
        command(d, t, s) == (ScriptView { gflags: d.gflags | 0x40000, ..d }, s),
{
    spellings();
    key_spellings();
    assert(lower(t.text).skip(1) == "casttextureshadows"@ && lower(t.text)[0] == '$') by {
        reveal_strlit("$casttextureshadows");
        reveal_strlit("casttextureshadows");
        assert(lower(t.text).skip(1) =~= "casttextureshadows"@);
    }
}

/// `$ambientboost` is told by its name.
pub proof fn names_ambientboost(d: ScriptView, t: TokenView, s: At)
    requires
        lower(t.text) == "$ambientboost"@,
    ensures
        command(d, t, s) == (ScriptView { gflags: d.gflags | 0x10000, ..d }, s),
{
    spellings();
    key_spellings();
    assert(lower(t.text).skip(1) == "ambientboost"@ && lower(t.text)[0] == '$') by {
        reveal_strlit("$ambientboost");
        reveal_strlit("ambientboost");
        assert(lower(t.text).skip(1) =~= "ambientboost"@);
    }
}

/// `$donotcastshadows` is told by its name.
pub proof fn names_donotcastshadows(d: ScriptView, t: TokenView, s: At)
    requires
        lower(t.text) == "$donotcastshadows"@,
    ensures
        command(d, t, s) == (ScriptView { gflags: d.gflags | 0x20000, ..d }, s),
{
    spellings();
    key_spellings();
    assert(lower(t.text).skip(1) == "donotcastshadows"@ && lower(t.text)[0] == '$') by {
        reveal_strlit("$donotcastshadows");
        reveal_strlit("donotcastshadows");
        assert(lower(t.text).skip(1) =~= "donotcastshadows"@);
    }
}

/// `$forcephonemecrossfade` is told by its name.
pub proof fn names_forcephonemecrossfade(d: ScriptView, t: TokenView, s: At)
    requires
        lower(t.text) == "$forcephonemecrossfade"@,
    ensures
        command(d, t, s) == (ScriptView { gflags: d.gflags | 0x1000, ..d }, s),
{
    spellings();
    key_spellings();
    assert(lower(t.text).skip(1) == "forcephonemecrossfade"@ && lower(t.text)[0] == '$') by {
        reveal_strlit("$forcephonemecrossfade");
        reveal_strlit("forcephonemecrossfade");
        assert(lower(t.text).skip(1) =~= "forcephonemecrossfade"@);
    }
}

/// `$mass` is told by its name.
pub proof fn names_mass(d: ScriptView, t: TokenView, s: At)
    requires
        lower(t.text) == "$mass"@,
    ensures
        command(d, t, s) == (
            ScriptView {
                desc: ModelDescView {
                    physics: PhysicsView { mass: Some(num(s).0), ..d.desc.physics },
                    ..d.desc
                },
                ..d
            },
            num(s).1,
        ),
{
    spellings();
    key_spellings();
    assert(lower(t.text).skip(1) == "mass"@ && lower(t.text)[0] == '$') by {
        reveal_strlit("$mass");
        reveal_strlit("mass");
        assert(lower(t.text).skip(1) =~= "mass"@);
    }
}

/// `$damping` is told by its name.
pub proof fn names_damping(d: ScriptView, t: TokenView, s: At)
    requires
        lower(t.text) == "$damping"@,
    ensures
        command(d, t, s) == (
            ScriptView {
                desc: ModelDescView {
                    physics: PhysicsView { damping: Some(num(s).0), ..d.desc.physics },
                    ..d.desc
                },
                ..d
            },
            num(s).1,
        ),
{
    spellings();
    key_spellings();
    assert(lower(t.text).skip(1) == "damping"@ && lower(t.text)[0] == '$') by {
        reveal_strlit("$damping");
        reveal_strlit("damping");
        assert(lower(t.text).skip(1) =~= "damping"@);
    }
}

/// `$rotdamping` is told by its name.
pub proof fn names_rotdamping(d: ScriptView, t: TokenView, s: At)
    requires
        lower(t.text) == "$rotdamping"@,
    ensures
        command(d, t, s) == (
            ScriptView {
                desc: ModelDescView {
                    physics: PhysicsView { rot_damping: Some(num(s).0), ..d.desc.physics },
                    ..d.desc
                },
                ..d
            },
            num(s).1,
        ),
{
    spellings();
    key_spellings();
    assert(lower(t.text).skip(1) == "rotdamping"@ && lower(t.text)[0] == '$') by {
        reveal_strlit("$rotdamping");
        reveal_strlit("rotdamping");
        assert(lower(t.text).skip(1) =~= "rotdamping"@);
    }
}

/// `$inertia` is told by its name.
pub proof fn names_inertia(d: ScriptView, t: TokenView, s: At)
    requires
        lower(t.text) == "$inertia"@,
    ensures
        command(d, t, s) == (
            ScriptView {
                desc: ModelDescView {
                    physics: PhysicsView { inertia: Some(num(s).0), ..d.desc.physics },
                    ..d.desc
                },
                ..d
            },
            num(s).1,
        ),
{
    spellings();
    key_spellings();
    assert(lower(t.text).skip(1) == "inertia"@ && lower(t.text)[0] == '$') by {
        reveal_strlit("$inertia");
        reveal_strlit("inertia");
        assert(lower(t.text).skip(1) =~= "inertia"@);
    }
}

/// `$drag` is told by its name.
pub proof fn names_drag(d: ScriptView, t: TokenView, s: At)
    requires
        lower(t.text) == "$drag"@,
    ensures
        command(d, t, s) == (
            ScriptView {
                desc: ModelDescView {
                    physics: PhysicsView { drag: Some(num(s).0), ..d.desc.physics },
                    ..d.desc
                },
                ..d
            },
            num(s).1,
        ),
{
    spellings();
    key_spellings();
    assert(lower(t.text).skip(1) == "drag"@ && lower(t.text)[0] == '$') by {
        reveal_strlit("$drag");
        reveal_strlit("drag");
        assert(lower(t.text).skip(1) =~= "drag"@);
    }
}

/// `$rootbone` is told by its name.
pub proof fn names_rootbone(d: ScriptView, t: TokenView, s: At)
    requires
        lower(t.text) == "$rootbone"@,
    ensures
        command(d, t, s) == (
            ScriptView {
                desc: ModelDescView {
                    physics: PhysicsView { root_bone: Some(word(s).0), ..d.desc.physics },
                    ..d.desc
                },
                ..d
            },
            word(s).1,
        ),
{
    spellings();
    key_spellings();
    assert(lower(t.text).skip(1) == "rootbone"@ && lower(t.text)[0] == '$') by {
        reveal_strlit("$rootbone");
        reveal_strlit("rootbone");
        assert(lower(t.text).skip(1) =~= "rootbone"@);
    }
}

/// `$masscenter` is told by its name.
pub proof fn names_masscenter(d: ScriptView, t: TokenView, s: At)
    requires
        lower(t.text) == "$masscenter"@,
    ensures
        command(d, t, s) == (
            ScriptView {
                desc: ModelDescView {
                    physics: PhysicsView { mass_center: Some(vector(s).0), ..d.desc.physics },
                    ..d.desc
                },
                ..d
            },
            vector(s).1,
        ),
{
    spellings();
    key_spellings();
    assert(lower(t.text).skip(1) == "masscenter"@ && lower(t.text)[0] == '$') by {
        reveal_strlit("$masscenter");
        reveal_strlit("masscenter");
        assert(lower(t.text).skip(1) =~= "masscenter"@);
    }
}

/// `$concave` is told by its name.
pub proof fn names_concave(d: ScriptView, t: TokenView, s: At)
    requires
        lower(t.text) == "$concave"@,
    ensures
        command(d, t, s) == (
            ScriptView {
                desc: ModelDescView {
                    physics: PhysicsView { concave: true, ..d.desc.physics },
                    ..d.desc
                },
                ..d
            },
            s,
        ),
{
    spellings();
    key_spellings();
    assert(lower(t.text).skip(1) == "concave"@ && lower(t.text)[0] == '$') by {
        reveal_strlit("$concave");
        reveal_strlit("concave");
        assert(lower(t.text).skip(1) =~= "concave"@);
    }
}

/// `$automass` is told by its name.
pub proof fn names_automass(d: ScriptView, t: TokenView, s: At)
    requires
        lower(t.text) == "$automass"@,
    ensures
        command(d, t, s) == (
            ScriptView {
                desc: ModelDescView {
                    physics: PhysicsView { auto_mass: true, ..d.desc.physics },
                    ..d.desc
                },
                ..d
            },
            s,
        ),
{
    spellings();
    key_spellings();
    assert(lower(t.text).skip(1) == "automass"@ && lower(t.text)[0] == '$') by {
        reveal_strlit("$automass");
        reveal_strlit("automass");
        assert(lower(t.text).skip(1) =~= "automass"@);
    }
}

/// `$body` is told by its name.
pub proof fn names_body(d: ScriptView, t: TokenView, s: At)
    requires
        lower(t.text) == "$body"@,
    ensures
        command(d, t, s) == body(d, s),
{
    spellings();
}

/// `$bodygroup` is told by its name.
pub proof fn names_bodygroup(d: ScriptView, t: TokenView, s: At)
    requires
        lower(t.text) == "$bodygroup"@,
    ensures
        command(d, t, s) == bodygroup(d, s),
{
    spellings();
}

/// `$model` is told by its name.
pub proof fn names_model(d: ScriptView, t: TokenView, s: At)
    requires
        lower(t.text) == "$model"@,
    ensures
        command(d, t, s) == model(d, s),
{
    spellings();
}

/// `$sequence` is told by its name.
pub proof fn names_sequence(d: ScriptView, t: TokenView, s: At)
    requires
        lower(t.text) == "$sequence"@,
    ensures
        command(d, t, s) == sequence(d, s),
{
    spellings();
}

/// `$animation` is told by its name.
pub proof fn names_animation(d: ScriptView, t: TokenView, s: At)
    requires
        lower(t.text) == "$animation"@,
    ensures
        command(d, t, s) == animation(d, s),
{
    spellings();
}

/// `$lod` is told by its name.
pub proof fn names_lod(d: ScriptView, t: TokenView, s: At)
    requires
        lower(t.text) == "$lod"@,
    ensures
        command(d, t, s) == lod(d, None, s),
{
    spellings();
}

/// `$shadowlod` is told by its name.
pub proof fn names_shadowlod(d: ScriptView, t: TokenView, s: At)
    requires
        lower(t.text) == "$shadowlod"@,
    ensures
        command(d, t, s) == lod(d, Some(0u32), s),
{
    spellings();
}

/// `$jigglebone` is told by its name.
pub proof fn names_jigglebone(d: ScriptView, t: TokenView, s: At)
    requires
        lower(t.text) == "$jigglebone"@,
    ensures
        command(d, t, s) == jigglebone(d, s),
{
    spellings();
}

/// `$proceduralbones` is told by its name.
pub proof fn names_proceduralbones(d: ScriptView, t: TokenView, s: At)
    requires
        lower(t.text) == "$proceduralbones"@,
    ensures
        command(d, t, s) == proceduralbones(d, s),
{
    spellings();
}

/// `$collisionmodel` is told by its name.
pub proof fn names_collisionmodel(d: ScriptView, t: TokenView, s: At)
    requires
        lower(t.text) == "$collisionmodel"@,
    ensures
        command(d, t, s) == collisionmodel(d, false, s),
{
    spellings();
}

/// `$collisionjoints` is told by its name.
pub proof fn names_collisionjoints(d: ScriptView, t: TokenView, s: At)
    requires
        lower(t.text) == "$collisionjoints"@,
    ensures
        command(d, t, s) == collisionmodel(d, true, s),
{
    spellings();
}

/// `$weightlist` is told by its name.
pub proof fn names_weightlist(d: ScriptView, t: TokenView, s: At)
    requires
        lower(t.text) == "$weightlist"@,
    ensures
        command(d, t, s) == weightlist(d, s),
{
    spellings();
}

/// `$contents` is told by its name.
pub proof fn names_contents(d: ScriptView, t: TokenView, s: At)
    requires
        lower(t.text) == "$contents"@,
    ensures
        command(d, t, s) == contents(d, s),
{
    spellings();
}

/// `$texturegroup` is told by its name.
pub proof fn names_texturegroup(d: ScriptView, t: TokenView, s: At)
    requires
        lower(t.text) == "$texturegroup"@,
    ensures
        command(d, t, s) == texturegroup(d, s),
{
    spellings();
}

/// `$includemodel` is told by its name.
pub proof fn names_includemodel(d: ScriptView, t: TokenView, s: At)
    requires
        lower(t.text) == "$includemodel"@,
    ensures
        command(d, t, s) == joined_model(d, s),
{
    spellings();
}

} // verus!
