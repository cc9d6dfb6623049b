use vstd::prelude::*;

verus! {

#[verifier::external_type_specification]
#[verifier::external_body]
pub struct ExIoError(std::io::Error);

/// A value a store can persist: it writes itself out as bytes and rebuilds
/// itself from them, falling back to `Default` when nothing was saved.
///
/// `serialized_spec` names the bytes a value writes and `parsed_spec` which
/// byte strings rebuild which value; the two executable methods are held to
/// them, so the store's own contracts can speak of saved bytes exactly.
pub trait StoreData: Default + Sized {
    spec fn serialized_spec(&self) -> Vec<u8>;

    spec fn parsed_spec(bytes: &[u8]) -> Option<Self>;

    fn serialize(&self) -> (r: Vec<u8>)
        ensures
            r@ == self.serialized_spec()@,
    ;

    fn deserialize(bytes: &[u8]) -> (r: std::io::Result<Self>)
        ensures
            match Self::parsed_spec(bytes) {
                Some(v) => r matches Ok(parsed) && parsed == v,
                None => r is Err,
            },
    ;
}

/// The in-memory half of a durable store: it owns the current value and
/// turns every mutation into the bytes to be flushed. Reading and writing
/// the backing file is left to the embedding application, which feeds
/// `new` the saved bytes and persists what `with_mut` hands back.
pub struct Store<T: StoreData> {
    data: T,
}

impl<T: StoreData> Store<T> {
    /// The stored value, as contracts see it.
    pub closed spec fn data_spec(self) -> T {
        self.data
    }

    /// Rebuilds the store from the bytes of an earlier run, or starts from
    /// the default value when nothing was saved; fails exactly when the
    /// saved bytes fail to parse.
    pub fn new(saved: Option<&[u8]>) -> (r: std::io::Result<Self>)
        ensures
            saved is None ==> r is Ok,
            saved matches Some(bytes) ==> match T::parsed_spec(bytes) {
                Some(v) => r matches Ok(s) && s.data_spec() == v,
                None => r is Err,
            },
    {
        match saved {
            Some(bytes) => match T::deserialize(bytes) {
                Ok(data) => Ok(Self { data }),
                Err(e) => Err(e),
            },
            None => Ok(Self { data: T::default() }),
        }
    }

    /// Applies `fun` to the stored value and returns the serialized bytes of
    /// the result — exactly what the caller must flush to durable storage.
    pub fn with_mut<F: FnOnce(T) -> T>(&mut self, fun: F) -> (flushed: Vec<u8>)
        requires
            forall|t: T| call_requires(fun, (t,)),
        ensures
            call_ensures(fun, (old(self).data_spec(),), final(self).data_spec()),
            flushed@ == final(self).data_spec().serialized_spec()@,
    {
        let mut data = T::default();
        core::mem::swap(&mut data, &mut self.data);
        let data = fun(data);
        let flushed = data.serialize();
        self.data = data;
        flushed
    }

    /// Shows the stored value to `fun`.
    pub fn with<F: FnOnce(&T)>(&self, fun: F)
        requires
            forall|t: &T| call_requires(fun, (t,)),
    {
        fun(&self.data)
    }
}

} // verus!
