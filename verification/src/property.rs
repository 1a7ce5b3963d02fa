//! Named properties with access control, backed by pluggable value
//! sources. A property only grants the reads and writes its access type
//! allows, and can only be built over a source whose own access suits it.

use vstd::prelude::*;

verus! {

/// Which of reading and writing an owner allows.
#[derive(Clone, Copy, Debug)]
pub enum AccessType {
    ReadOnly,
    WriteOnly,
    ReadWrite,
}

pub open spec fn spec_read_enabled(a: AccessType) -> bool {
    a is ReadOnly || a is ReadWrite
}

pub open spec fn spec_write_enabled(a: AccessType) -> bool {
    a is WriteOnly || a is ReadWrite
}

/// Whether a property asking for `a` is served by a source offering
/// `other`: reads need a readable source, writes a writable one, and both
/// need both.
pub open spec fn spec_suits(a: AccessType, other: AccessType) -> bool {
    match a {
        AccessType::ReadOnly => spec_read_enabled(other),
        AccessType::WriteOnly => spec_write_enabled(other),
        AccessType::ReadWrite => other is ReadWrite,
    }
}

impl AccessType {
    /// Whether values may be read under this access type.
    pub fn read_enabled(&self) -> (b: bool)
        ensures
            b == spec_read_enabled(*self),
    {
        match *self {
            AccessType::ReadOnly | AccessType::ReadWrite => true,
            AccessType::WriteOnly => false,
        }
    }

    /// Whether values may be written under this access type.
    pub fn write_enabled(&self) -> (b: bool)
        ensures
            b == spec_write_enabled(*self),
    {
        match *self {
            AccessType::WriteOnly | AccessType::ReadWrite => true,
            AccessType::ReadOnly => false,
        }
    }

    /// Whether both reading and writing are allowed.
    pub fn read_write_enabled(&self) -> (b: bool)
        ensures
            b == (*self is ReadWrite),
    {
        match *self {
            AccessType::ReadWrite => true,
            AccessType::ReadOnly | AccessType::WriteOnly => false,
        }
    }

    /// Whether a property with this access type can be served by a source
    /// offering `other`.
    pub fn suits(&self, other: AccessType) -> (b: bool)
        ensures
            b == spec_suits(*self, other),
    {
        match *self {
            AccessType::ReadOnly => other.read_enabled(),
            AccessType::WriteOnly => other.write_enabled(),
            AccessType::ReadWrite => other.read_write_enabled(),
        }
    }
}

/// Where a property's value lives. Implementors state which access they
/// offer and what value they currently hold.
pub trait ValueSource<T: Copy>: Sized {
    /// The access this source offers.
    spec fn spec_access_type(&self) -> AccessType;

    /// The value this source currently holds.
    spec fn spec_value(&self) -> T;

    fn access_type(&self) -> (a: AccessType)
        ensures
            a == self.spec_access_type(),
    ;

    fn get(&self) -> (v: T)
        ensures
            v == self.spec_value(),
    ;

    fn set(&mut self, value: T)
        ensures
            spec_write_enabled(old(self).spec_access_type()) ==> final (self).spec_value()
                == value,
            !spec_write_enabled(old(self).spec_access_type()) ==> final (self).spec_value() == old(
                self,
            ).spec_value(),
            final (self).spec_access_type() == old(self).spec_access_type(),
    ;
}

/// A named, access-controlled view onto a value source.
pub struct Property<T: Copy, S: ValueSource<T>> {
    name: String,
    access_type: AccessType,
    source: S,
    marker: core::marker::PhantomData<T>,
}

impl<T: Copy, S: ValueSource<T>> Property<T, S> {
    pub closed spec fn spec_name(&self) -> Seq<char> {
        self.name@
    }

    /// A property is only ever built over a source that suits its access
    /// type; every constructed property satisfies this.
    pub open spec fn spec_wf(&self) -> bool {
        spec_suits(self.spec_access_type(), self.spec_source().spec_access_type())
    }

    pub closed spec fn spec_access_type(&self) -> AccessType {
        self.access_type
    }

    pub closed spec fn spec_source(&self) -> S {
        self.source
    }

    /// A property named `name` over `source`, if and only if the requested
    /// access suits what the source offers; the diagnostic message
    /// otherwise.
    pub fn new(name: &str, access_type: AccessType, source: S) -> (r: Result<
        Property<T, S>,
        String,
    >)
        ensures
            r is Ok <==> spec_suits(access_type, source.spec_access_type()),
            r matches Ok(p) ==> p.spec_name() == name@ && p.spec_access_type() == access_type
                && p.spec_source() == source && p.spec_wf(),
            r matches Err(e) ==> e@ == "Unsiutable value source provided"@,
    {
        if !access_type.suits(source.access_type()) {
            Err("Unsiutable value source provided".to_owned())
        } else {
            Ok(
                Property {
                    name: name.to_owned(),
                    access_type,
                    source,
                    marker: core::marker::PhantomData,
                },
            )
        }
    }

    /// The property's name.
    pub fn name(&self) -> (r: &str)
        ensures
            r@ == self.spec_name(),
    {
        self.name.as_str()
    }

    /// The property's access type.
    pub fn access_type(&self) -> (a: AccessType)
        ensures
            a == self.spec_access_type(),
    {
        self.access_type
    }

    /// The source's current value. Reading a property whose access type
    /// forbids reads is a programming error that aborts, so reads demand
    /// read access.
    pub fn get(&self) -> (v: T)
        requires
            spec_read_enabled(self.spec_access_type()),
        ensures
            v == self.spec_source().spec_value(),
    {
        self.source.get()
    }

    /// Stores `value` in the source. Writing a property whose access type
    /// forbids writes is a programming error that aborts, so writes demand
    /// write access.
    pub fn set(&mut self, value: T)
        requires
            old(self).spec_wf(),
            spec_write_enabled(old(self).spec_access_type()),
        ensures
            final (self).spec_wf(),
            final (self).spec_source().spec_value() == value,
            final (self).spec_source().spec_access_type() == old(self).spec_source(
            ).spec_access_type(),
            final (self).spec_access_type() == old(self).spec_access_type(),
            final (self).spec_name() == old(self).spec_name(),
    {
        proof {
            assert(spec_write_enabled(self.spec_source().spec_access_type()));
        }
        self.source.set(value)
    }
}

/// The simplest value source: a mutable variable offering read and write.
pub struct Variable<T> {
    data: T,
}

impl<T: Copy> Variable<T> {
    /// A variable holding `default`.
    pub fn new(default: T) -> (v: Variable<T>)
        ensures
            v.spec_value() == default,
    {
        Variable { data: default }
    }
}

impl<T: Copy> ValueSource<T> for Variable<T> {
    closed spec fn spec_access_type(&self) -> AccessType {
        AccessType::ReadWrite
    }

    closed spec fn spec_value(&self) -> T {
        self.data
    }

    fn access_type(&self) -> (a: AccessType) {
        AccessType::ReadWrite
    }

    fn get(&self) -> (v: T) {
        self.data
    }

    fn set(&mut self, value: T) {
        self.data = value;
    }
}

/// A value source holding a fixed value: it offers reading only, and a
/// write leaves it untouched.
pub struct Constant<T> {
    data: T,
}

impl<T: Copy> Constant<T> {
    /// A constant source holding `value`.
    pub fn new(value: T) -> (c: Constant<T>)
        ensures
            c.spec_value() == value,
    {
        Constant { data: value }
    }
}

impl<T: Copy> ValueSource<T> for Constant<T> {
    closed spec fn spec_access_type(&self) -> AccessType {
        AccessType::ReadOnly
    }

    closed spec fn spec_value(&self) -> T {
        self.data
    }

    fn access_type(&self) -> (a: AccessType) {
        AccessType::ReadOnly
    }

    fn get(&self) -> (v: T) {
        self.data
    }

    fn set(&mut self, _value: T) {
    }
}

/// A variable always suits every requested access, so building a property
/// over one never fails.
pub proof fn lemma_variable_suits(a: AccessType, v: Variable<int>)
    ensures
        spec_suits(a, v.spec_access_type()),
{
}

} // verus!
