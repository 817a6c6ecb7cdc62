//! Java class files (the `ristretto_classfile` crate): parsing, the constant
//! pool, verification and serialization.
//!
//! A class file is modelled by the bytes it was parsed from and its
//! constant pool, position by position: a slot is either the constant the
//! parsed pool holds at that position or a UTF-8 constant with new text.
//! What the parser finds in the pool, whether a class verifies, and what it
//! serializes to are named as functions of that model.

use vstd::prelude::*;

use ristretto_classfile::{ClassFile, Constant, ConstantPool};

use crate::error::Error;

verus! {

#[verifier::external_type_specification]
#[verifier::external_body]
pub struct ExClassFile(ClassFile);

#[verifier::external_type_specification]
#[verifier::external_body]
pub struct ExConstant(Constant);

#[verifier::external_type_specification]
#[verifier::external_body]
pub struct ExConstantPool(ConstantPool);

/// Whether `ClassFile::from_bytes` accepts the bytes as a class file.
pub uninterp spec fn class_parses(bytes: Seq<u8>) -> bool;

/// The constants of the pool `ClassFile::from_bytes` reads from the bytes,
/// in pool order without the unused slots after long and double constants:
/// the text of each `Constant::Utf8`, `None` for any other constant.
pub uninterp spec fn class_constant_texts(bytes: Seq<u8>) -> Seq<Option<Seq<char>>>;

/// Whether `ClassFile::verify` accepts the class parsed from `bytes` with
/// its pool rebuilt from `slots` (see [`ParsedClass::slots`]).
pub uninterp spec fn class_verifies(bytes: Seq<u8>, slots: Seq<Option<Seq<char>>>) -> bool;

/// Whether `ClassFile::to_bytes` succeeds on the class parsed from `bytes`
/// with its pool rebuilt from `slots`.
pub uninterp spec fn class_serializes(bytes: Seq<u8>, slots: Seq<Option<Seq<char>>>) -> bool;

/// What `ClassFile::to_bytes` writes for the class parsed from `bytes` with
/// its pool rebuilt from `slots`.
pub uninterp spec fn class_bytes(bytes: Seq<u8>, slots: Seq<Option<Seq<char>>>) -> Seq<u8>;

/// The pool of a freshly parsed class: every slot keeps the parsed constant.
pub open spec fn unchanged_slots(n: nat) -> Seq<Option<Seq<char>>> {
    Seq::new(n, |k: int| None::<Seq<char>>)
}

/// A parsed class file, with the bytes it was parsed from and its pool.
pub struct ParsedClass {
    class: ClassFile,
    source: Ghost<Seq<u8>>,
    slots: Ghost<Seq<Option<Seq<char>>>>,
}

impl ParsedClass {
    /// The bytes the class was parsed from.
    pub closed spec fn source(&self) -> Seq<u8> {
        self.source@
    }

    /// The pool, slot by slot: `None` keeps the parsed constant at that
    /// position, `Some(text)` is a UTF-8 constant with that text.
    pub closed spec fn slots(&self) -> Seq<Option<Seq<char>>> {
        self.slots@
    }
}

/// Where a constant comes from: position `index` of the pool parsed from
/// `source` (`text` is `None`), or a new UTF-8 constant with `text`.
pub struct ConstantOrigin {
    pub source: Seq<u8>,
    pub index: int,
    pub text: Option<Seq<char>>,
}

/// A constant, with where it comes from.
pub struct PoolConstant {
    constant: Constant,
    origin: Ghost<ConstantOrigin>,
}

impl PoolConstant {
    /// Where the constant comes from.
    pub closed spec fn origin(&self) -> ConstantOrigin {
        self.origin@
    }
}

/// A constant pool being built, with where each constant comes from.
pub struct NewPool {
    pool: ConstantPool,
    origins: Ghost<Seq<ConstantOrigin>>,
}

impl NewPool {
    /// Where the constants added so far come from, in order.
    pub closed spec fn origins(&self) -> Seq<ConstantOrigin> {
        self.origins@
    }
}

/// Parses a class file (`ClassFile::from_bytes`); on failure, the class-file
/// crate's message.
#[verifier::external_body]
pub(crate) fn class_parse(bytes: &[u8]) -> (r: Result<ParsedClass, Error>)
    ensures
        r is Ok <==> class_parses(bytes@),
        r matches Ok(c) ==> c.source() == bytes@ && c.slots() == unchanged_slots(
            class_constant_texts(bytes@).len(),
        ),
        r matches Err(e) ==> e is ClassFile,
{
    let mut cursor = std::io::Cursor::new(bytes.to_vec());
    match ClassFile::from_bytes(&mut cursor) {
        Ok(class) => Ok(ParsedClass { class, source: Ghost(bytes@), slots: Ghost(unchanged_slots(class_constant_texts(bytes@).len())) }),
        Err(e) => Err(Error::ClassFile(e.to_string())),
    }
}

/// The constants of a freshly parsed class's pool, in order, without the
/// unused slots that follow long and double constants (iterating
/// `&ConstantPool`).
#[verifier::external_body]
pub(crate) fn class_constants(class: &ParsedClass) -> (r: Vec<PoolConstant>)
    requires
        class.slots() == unchanged_slots(class_constant_texts(class.source()).len()),
    ensures
        r@.len() == class_constant_texts(class.source()).len(),
        forall|k: int|
            0 <= k < r@.len() ==> (#[trigger] r@[k]).origin() == (ConstantOrigin {
                source: class.source(),
                index: k,
                text: None,
            }),
{
    let source = class.source;
    class.class.constant_pool.iter().enumerate().map(
        |(k, c)| PoolConstant { constant: c.clone(), origin: Ghost(ConstantOrigin { source: source@, index: k as int, text: None }) },
    ).collect()
}

/// The text of a `Constant::Utf8`, or `None` for any other constant.
#[verifier::external_body]
pub(crate) fn constant_utf8_text(c: &PoolConstant) -> (r: Option<String>)
    ensures
        match c.origin().text {
            Some(t) => r matches Some(s) && s@ == t,
            None => match class_constant_texts(c.origin().source)[c.origin().index] {
                Some(t) => r matches Some(s) && s@ == t,
                None => r is None,
            },
        },
{
    match &c.constant {
        Constant::Utf8(s) => Some(s.clone()),
        _ => None,
    }
}

/// A `Constant::Utf8` holding the text.
#[verifier::external_body]
pub(crate) fn utf8_constant(text: String) -> (r: PoolConstant)
    ensures
        r.origin().text == Some(text@),
{
    let t = Ghost(text@);
    PoolConstant { constant: Constant::Utf8(text), origin: Ghost(ConstantOrigin { source: Seq::empty(), index: 0, text: Some(t@) }) }
}

/// An empty constant pool (`ConstantPool::new`).
#[verifier::external_body]
pub(crate) fn pool_new() -> (r: NewPool)
    ensures
        r.origins() == Seq::<ConstantOrigin>::empty(),
{
    NewPool { pool: ConstantPool::new(), origins: Ghost(Seq::empty()) }
}

/// Whether the constants `origins` rebuild the start of the pool parsed
/// from `source` slot for slot: each is the parsed constant at its position
/// or a UTF-8 constant where the parsed pool has one.
pub open spec fn rebuilds_prefix(origins: Seq<ConstantOrigin>, source: Seq<u8>) -> bool {
    &&& class_parses(source)
    &&& origins.len() <= class_constant_texts(source).len()
    &&& forall|k: int| 0 <= k < origins.len() ==> #[trigger] fills_slot(origins[k], source, k)
}

/// Whether a constant can stand at position `k` of the pool parsed from
/// `source`: it is the parsed constant there, or a UTF-8 constant where the
/// parsed one is UTF-8 too.
pub open spec fn fills_slot(o: ConstantOrigin, source: Seq<u8>, k: int) -> bool {
    &&& 0 <= k < class_constant_texts(source).len()
    &&& o.text is None ==> o.source == source && o.index == k
    &&& o.text is Some ==> class_constant_texts(source)[k] is Some
}

/// Appends a constant to a pool (`ConstantPool::add`); fails when the pool
/// already has 65,535 slots. A pool parsed from a class file has at most
/// 65,535 slots (its count is a 16-bit field), so rebuilding it slot for
/// slot, with UTF-8 constants (one slot each) replaced by UTF-8 constants,
/// never fails.
#[verifier::external_body]
pub(crate) fn pool_add(pool: &mut NewPool, c: PoolConstant) -> (r: Result<(), Error>)
    ensures
        r is Ok ==> final(pool).origins() == old(pool).origins().push(c.origin()),
        ({
            let os = old(pool).origins();
            exists|src: Seq<u8>| #[trigger] rebuilds_prefix(os, src) && fills_slot(c.origin(), src, os.len() as int)
        }) ==> r is Ok,
        r matches Err(e) ==> e is ClassFile,
{
    let o = c.origin;
    match pool.pool.add(c.constant) {
        Ok(_) => {
            pool.origins = Ghost(pool.origins@.push(o@));
            Ok(())
        },
        Err(e) => Err(Error::ClassFile(e.to_string())),
    }
}

/// Whether the constants of a new pool are, position by position, the
/// constants of the class's parsed pool or new UTF-8 constants.
pub open spec fn positional(origins: Seq<ConstantOrigin>, source: Seq<u8>) -> bool {
    &&& origins.len() == class_constant_texts(source).len()
    &&& forall|k: int|
        0 <= k < origins.len() ==> (#[trigger] origins[k]).text is Some || (origins[k].source == source
            && origins[k].index == k)
}

/// The slots a positional pool gives.
pub open spec fn slots_of(origins: Seq<ConstantOrigin>) -> Seq<Option<Seq<char>>> {
    origins.map_values(|o: ConstantOrigin| o.text)
}

/// Replaces a class's constant pool (assigning the `constant_pool` field).
#[verifier::external_body]
pub(crate) fn class_set_pool(class: &mut ParsedClass, pool: NewPool)
    requires
        positional(pool.origins(), old(class).source()),
    ensures
        final(class).source() == old(class).source(),
        final(class).slots() == slots_of(pool.origins()),
{
    class.class.constant_pool = pool.pool;
    class.slots = Ghost(slots_of(pool.origins@));
}

/// Checks a class file's consistency (`ClassFile::verify`).
#[verifier::external_body]
pub(crate) fn class_verify(class: &ParsedClass) -> (r: Result<(), Error>)
    ensures
        r is Ok <==> class_verifies(class.source(), class.slots()),
        r matches Err(e) ==> e is ClassFile,
{
    class.class.verify().map_err(|e| Error::ClassFile(e.to_string()))
}

/// Serializes a class file (`ClassFile::to_bytes`).
#[verifier::external_body]
pub(crate) fn class_to_bytes(class: &ParsedClass) -> (r: Result<Vec<u8>, Error>)
    ensures
        r is Ok <==> class_serializes(class.source(), class.slots()),
        r matches Ok(b) ==> b@ == class_bytes(class.source(), class.slots()),
        r matches Err(e) ==> e is ClassFile,
{
    let mut out = Vec::new();
    class.class.to_bytes(&mut out).map(|_| out).map_err(|e| Error::ClassFile(e.to_string()))
}

} // verus!
