//! Java class file constant pool processing.

use vstd::prelude::*;

use rayon::prelude::{IntoParallelIterator, ParallelIterator};

use crate::classfile::{
    class_bytes, class_constant_texts, class_constants, class_parse, class_parses, class_set_pool,
    class_serializes, class_to_bytes, class_verifies, class_verify, constant_utf8_text, pool_add, pool_new, slots_of,
    utf8_constant, ConstantOrigin,
};
use crate::error::Error;
use crate::jar::entries_view;
use crate::placeholders::{lookup, PlaceholderMap};

verus! {

/// The replacement for a UTF-8 constant's text: the placeholder value when
/// the whole text is a placeholder key.
pub fn replacement_for(text: &str, placeholders: &PlaceholderMap) -> (r: Option<String>)
    ensures
        match r {
            Some(v) => lookup(placeholders@, text@) == Some(v@),
            None => lookup(placeholders@, text@).is_none(),
        },
{
    match placeholders.get(text) {
        Some(v) => Some(v.clone()),
        None => None,
    }
}

/// The constant pool after replacement, slot by slot: each UTF-8 constant
/// whose whole text is a placeholder key becomes a UTF-8 constant with the
/// key's value; every other constant stays as it is.
pub open spec fn replaced_slots(texts: Seq<Option<Seq<char>>>, ph: Seq<(Seq<char>, Seq<char>)>) -> Seq<
    Option<Seq<char>>,
> {
    texts.map_values(
        |t: Option<Seq<char>>|
            match t {
                Some(s) => lookup(ph, s),
                None => None,
            },
    )
}

/// Whether some constant of the pool is replaced.
pub open spec fn some_replaced(texts: Seq<Option<Seq<char>>>, ph: Seq<(Seq<char>, Seq<char>)>) -> bool {
    exists|k: int| 0 <= k < texts.len() && #[trigger] replaced_slots(texts, ph)[k] is Some
}

/// What rewriting a class gives: the class parsed from `bytes`, with its
/// constant pool replaced as `replaced_slots` says, written back.
pub open spec fn rewritten_class(bytes: Seq<u8>, ph: Seq<(Seq<char>, Seq<char>)>) -> Seq<u8> {
    class_bytes(bytes, replaced_slots(class_constant_texts(bytes), ph))
}

/// Whether `out` is the class `bytes` rewritten: the class parses, is
/// checked when `checked` holds (and then verifies), and `out` is
/// `rewritten_class`.
pub open spec fn class_rewritten(
    bytes: Seq<u8>,
    ph: Seq<(Seq<char>, Seq<char>)>,
    checked: bool,
    out: Seq<u8>,
) -> bool {
    let slots = replaced_slots(class_constant_texts(bytes), ph);
    &&& class_parses(bytes)
    &&& checked ==> class_verifies(bytes, slots)
    &&& out == class_bytes(bytes, slots)
}

/// Replacement in a constant pool works constant by constant: the pool
/// keeps its length, a UTF-8 constant whose whole text is a placeholder key
/// becomes a UTF-8 constant holding that key's value, and every other
/// constant (another UTF-8 text, or a constant of another kind) stays as it
/// was.
pub proof fn law_constants_replaced_one_by_one(
    texts: Seq<Option<Seq<char>>>,
    ph: Seq<(Seq<char>, Seq<char>)>,
    k: int,
)
    requires
        0 <= k < texts.len(),
    ensures
        replaced_slots(texts, ph).len() == texts.len(),
        replaced_slots(texts, ph)[k] == match texts[k] {
            Some(t) => lookup(ph, t),
            None => None,
        },
{
}

/// With no placeholders, rewriting replaces nothing: every constant of the
/// pool stays as it was, and the class is written back without a check.
pub proof fn law_no_placeholders_no_replacement(texts: Seq<Option<Seq<char>>>)
    ensures
        replaced_slots(texts, Seq::empty()) == crate::classfile::unchanged_slots(texts.len()),
        !some_replaced(texts, Seq::empty()),
{
    assert(replaced_slots(texts, Seq::empty()) =~= crate::classfile::unchanged_slots(texts.len()));
}

/// Whether rewriting the class `bytes` succeeds: it parses, verifies with
/// its pool replaced when `checked` holds, and serializes.
pub open spec fn class_rewrites(bytes: Seq<u8>, ph: Seq<(Seq<char>, Seq<char>)>, checked: bool) -> bool {
    let slots = replaced_slots(class_constant_texts(bytes), ph);
    &&& class_parses(bytes)
    &&& checked ==> class_verifies(bytes, slots)
    &&& class_serializes(bytes, slots)
}

/// Rewrites a class file's constant pool: every UTF-8 constant whose whole
/// text is a placeholder key is replaced by the key's value. The class is
/// checked before it is written back when something was replaced, or
/// always when `verify_always` is set.
fn rewrite_class(class_bytes: &[u8], placeholders: &PlaceholderMap, verify_always: bool) -> (r:
    Result<Vec<u8>, Error>)
    ensures
        !class_parses(class_bytes@) ==> r is Err,
        r matches Ok(out) ==> class_rewritten(
            class_bytes@,
            placeholders@,
            verify_always || some_replaced(class_constant_texts(class_bytes@), placeholders@),
            out@,
        ),
        class_rewrites(
            class_bytes@,
            placeholders@,
            verify_always || some_replaced(class_constant_texts(class_bytes@), placeholders@),
        ) ==> r is Ok,
        r matches Err(e) ==> e is ClassFile,
{
    let mut class_file = class_parse(class_bytes)?;
    let ghost src = class_bytes@;
    let ghost texts = class_constant_texts(src);
    let ghost target = replaced_slots(texts, placeholders@);
    let constants = class_constants(&class_file);
    let mut new_pool = pool_new();
    let mut modified = false;
    let n = constants.len();
    let mut constants = constants;
    let mut rest: Vec<crate::classfile::PoolConstant> = Vec::new();
    while constants.len() > 0
        invariant
            constants@.len() + rest@.len() == n,
            n == texts.len(),
            forall|k: int| 0 <= k < constants@.len() ==> (#[trigger] constants@[k]).origin() == (ConstantOrigin {
                source: src,
                index: k,
                text: None,
            }),
            forall|k: int| 0 <= k < rest@.len() ==> (#[trigger] rest@[k]).origin() == (ConstantOrigin {
                source: src,
                index: n - 1 - k,
                text: None,
            }),
        decreases constants@.len(),
    {
        let c = constants.pop().unwrap();
        rest.push(c);
    }
    while rest.len() > 0
        invariant
            n == texts.len(),
            texts == class_constant_texts(src),
            target == replaced_slots(texts, placeholders@),
            class_file.source() == src,
            class_file.slots() == crate::classfile::unchanged_slots(n as nat),
            new_pool.origins().len() + rest@.len() == n,
            forall|k: int| 0 <= k < rest@.len() ==> (#[trigger] rest@[k]).origin() == (ConstantOrigin {
                source: src,
                index: n - 1 - k,
                text: None,
            }),
            forall|k: int| 0 <= k < new_pool.origins().len() ==> {
                let o = #[trigger] new_pool.origins()[k];
                o.text == target[k] && (o.text is None ==> o.source == src && o.index == k)
            },
            modified == exists|k: int| 0 <= k < new_pool.origins().len() && #[trigger] target[k] is Some,
            class_parses(src),
        decreases rest@.len(),
    {
        let entry = rest.pop().unwrap();
        let ghost k = new_pool.origins().len() as int;
        assert(entry.origin().index == k);
        proof {
            assert forall|j: int| 0 <= j < new_pool.origins().len() implies #[trigger] crate::classfile::fills_slot(
                new_pool.origins()[j],
                src,
                j,
            ) by {
                let o = new_pool.origins()[j];
                assert(o.text == target[j]);
            }
            assert(crate::classfile::rebuilds_prefix(new_pool.origins(), src));
        }
        let replaced = match constant_utf8_text(&entry) {
            Some(text) => match replacement_for(text.as_str(), placeholders) {
                Some(value) => Some(utf8_constant(value)),
                None => None,
            },
            None => None,
        };
        let ghost before = new_pool.origins();
        assert(replaced matches Some(c) ==> crate::classfile::fills_slot(c.origin(), src, k));
        assert(replaced is None ==> crate::classfile::fills_slot(entry.origin(), src, k));
        match replaced {
            Some(c) => {
                modified = true;
                pool_add(&mut new_pool, c)?;
            },
            None => {
                pool_add(&mut new_pool, entry)?;
            },
        }
        proof {
            assert(new_pool.origins()[k].text == target[k]);
            assert forall|j: int| 0 <= j < new_pool.origins().len() implies {
                let o = #[trigger] new_pool.origins()[j];
                o.text == target[j] && (o.text is None ==> o.source == src && o.index == j)
            } by {
                if j < k {
                    assert(new_pool.origins()[j] == before[j]);
                }
            }
            if modified {
                if !(exists|j: int| 0 <= j < before.len() && #[trigger] target[j] is Some) {
                    assert(target[k] is Some);
                }
            } else {
                assert forall|j: int| 0 <= j < new_pool.origins().len() implies !(#[trigger] target[j] is Some) by {
                    if j < k {
                        assert(!(target[j] is Some));
                    }
                }
            }
        }
    }
    proof {
        assert(slots_of(new_pool.origins()) =~= target);
        if modified == false {
            assert(target =~= crate::classfile::unchanged_slots(n as nat)) by {
                assert forall|j: int| 0 <= j < n implies #[trigger] target[j] == None::<Seq<char>> by {
                    assert(!(target[j] is Some));
                }
            }
        }
        assert(modified == some_replaced(texts, placeholders@));
    }
    if modified || verify_always {
        class_set_pool(&mut class_file, new_pool);
        class_verify(&class_file)?;
    }
    class_to_bytes(&class_file)
}

/// Processes class file bytecode, replacing placeholders in the constant pool.
///
/// Every UTF-8 constant whose whole text is a placeholder key is replaced by
/// the key's value. When something was replaced the class is checked before
/// it is written back. Bytes that do not parse as a class file give an error;
/// a class that parses, verifies when checked, and serializes is rewritten.
pub fn process_class_bytes(class_bytes: &[u8], placeholders: &PlaceholderMap) -> (r: Result<
    Vec<u8>,
    Error,
>)
    ensures
        !class_parses(class_bytes@) ==> r is Err,
        r matches Ok(out) ==> class_rewritten(
            class_bytes@,
            placeholders@,
            some_replaced(class_constant_texts(class_bytes@), placeholders@),
            out@,
        ),
        class_rewrites(
            class_bytes@,
            placeholders@,
            some_replaced(class_constant_texts(class_bytes@), placeholders@),
        ) ==> r is Ok,
        r matches Err(e) ==> e is ClassFile,
{
    rewrite_class(class_bytes, placeholders, false)
}

/// Whether rewriting every class succeeds; `always_checked` says whether
/// every class is checked, else those with a replaced constant are.
pub open spec fn all_classes_rewrite(
    classes: Seq<(Seq<char>, Seq<u8>)>,
    ph: Seq<(Seq<char>, Seq<char>)>,
    always_checked: bool,
) -> bool {
    forall|i: int|
        0 <= i < classes.len() ==> class_rewrites(
            (#[trigger] classes[i]).1,
            ph,
            always_checked || some_replaced(class_constant_texts(classes[i].1), ph),
        )
}

/// Whether `v` holds the classes `classes` rewritten, in order, under their
/// paths; `always_checked` says whether every class was checked, else those
/// with a replaced constant were.
pub open spec fn classes_rewritten(
    classes: Seq<(String, Vec<u8>)>,
    ph: Seq<(Seq<char>, Seq<char>)>,
    always_checked: bool,
    v: Seq<(String, Vec<u8>)>,
) -> bool {
    &&& v.len() == classes.len()
    &&& forall|i: int|
        0 <= i < v.len() ==> (#[trigger] v[i]).0@ == classes[i].0@ && class_rewritten(
            classes[i].1@,
            ph,
            always_checked || some_replaced(class_constant_texts(classes[i].1@), ph),
            v[i].1@,
        )
}

/// Rewrites every class with `rewrite_class` on rayon's thread pool
/// (`into_par_iter().map(..).collect()`): rayon keeps the order and the
/// paths and gives an error when some class gives one, so each class comes
/// back as `rewrite_class` gives it.
#[verifier::external_body]
fn process_each_in_parallel(
    classes: Vec<(String, Vec<u8>)>,
    placeholders: &PlaceholderMap,
    verify_always: bool,
) -> (r:
    Result<Vec<(String, Vec<u8>)>, Error>)
    ensures
        (exists|i: int| 0 <= i < classes@.len() && !class_parses(#[trigger] classes@[i].1@))
            ==> r is Err,
        all_classes_rewrite(entries_view(classes@), placeholders@, verify_always) ==> r is Ok,
        r matches Ok(v) ==> classes_rewritten(classes@, placeholders@, verify_always, v@),
        r matches Err(e) ==> e is ClassFile,
{
    classes.into_par_iter().map(
        |(path, bytes): (String, Vec<u8>)|
            rewrite_class(&bytes, placeholders, verify_always).map(|processed| (path, processed)),
    ).collect()
}

/// Processes multiple class files in parallel.
///
/// Returns the processed classes with the same paths, in the same order,
/// each rewritten as `process_class_bytes` rewrites it, or an error when
/// some class cannot be processed.
pub fn process_classes_parallel(classes: Vec<(String, Vec<u8>)>, placeholders: &PlaceholderMap) -> (r:
    Result<Vec<(String, Vec<u8>)>, Error>)
    ensures
        (exists|i: int| 0 <= i < classes@.len() && !class_parses(#[trigger] classes@[i].1@))
            ==> r is Err,
        all_classes_rewrite(entries_view(classes@), placeholders@, false) ==> r is Ok,
        r matches Ok(v) ==> classes_rewritten(classes@, placeholders@, false, v@),
        r matches Err(e) ==> e is ClassFile,
{
    process_each_in_parallel(classes, placeholders, false)
}

/// Processes multiple class files in parallel, checking every class before
/// it is written back whether or not something was replaced.
pub fn rewrite_classes_parallel(classes: Vec<(String, Vec<u8>)>, placeholders: &PlaceholderMap) -> (r:
    Result<Vec<(String, Vec<u8>)>, Error>)
    ensures
        (exists|i: int| 0 <= i < classes@.len() && !class_parses(#[trigger] classes@[i].1@))
            ==> r is Err,
        all_classes_rewrite(entries_view(classes@), placeholders@, true) ==> r is Ok,
        r matches Ok(v) ==> classes_rewritten(classes@, placeholders@, true, v@),
        r matches Err(e) ==> e is ClassFile,
{
    process_each_in_parallel(classes, placeholders, true)
}

} // verus!
