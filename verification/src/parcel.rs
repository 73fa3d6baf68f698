//! A message between a caller and the service: typed values, read in the
//! order in which they were written.

use vstd::prelude::*;

verus! {

/// One value of a message.
pub enum ParcelItem {
    I32(i32),
    U32(u32),
    I64(i64),
    U64(u64),
    Bool(bool),
    Text(String),
    Fd(i32),
}

/// One value of a message, as a plain mathematical value.
pub enum Item {
    I32(i32),
    U32(u32),
    I64(i64),
    U64(u64),
    Bool(bool),
    Text(Seq<char>),
    Fd(i32),
}

impl View for ParcelItem {
    type V = Item;

    open spec fn view(&self) -> Item {
        match self {
            ParcelItem::I32(v) => Item::I32(*v),
            ParcelItem::U32(v) => Item::U32(*v),
            ParcelItem::I64(v) => Item::I64(*v),
            ParcelItem::U64(v) => Item::U64(*v),
            ParcelItem::Bool(v) => Item::Bool(*v),
            ParcelItem::Text(v) => Item::Text(v@),
            ParcelItem::Fd(v) => Item::Fd(*v),
        }
    }
}

/// Why a message could not be read.
#[derive(Clone, Copy, PartialEq, Eq, Structural, Debug)]
pub enum IpcStatusCode {
    Failed,
}

/// A message: the values written so far, of which a prefix has been read.
pub struct MsgParcel {
    items: Vec<ParcelItem>,
    cursor: usize,
}

spec fn items_view(items: Seq<ParcelItem>) -> Seq<Item> {
    Seq::new(items.len(), |i: int| items[i]@)
}

impl MsgParcel {
    /// The cursor never passes the end.
    pub closed spec fn wf(&self) -> bool {
        self.cursor <= self.items@.len()
    }

    /// Every value that was written, read or not, in order.
    pub closed spec fn contents(&self) -> Seq<Item> {
        items_view(self.items@)
    }

    /// The number of values that have been read.
    pub closed spec fn position(&self) -> int {
        self.cursor as int
    }

    /// The values that are not read yet, in order.
    pub open spec fn view(&self) -> Seq<Item> {
        self.contents().skip(self.position())
    }

    /// The cursor is within the contents.
    pub proof fn lemma_position_in_range(&self)
        requires
            self.wf(),
        ensures
            0 <= self.position() <= self.contents().len(),
    {
    }

    /// An empty message.
    pub fn new() -> (p: MsgParcel)
        ensures
            p.wf(),
            p.contents() == Seq::<Item>::empty(),
            p.position() == 0,
            p@ == Seq::<Item>::empty(),
    {
        let p = MsgParcel { items: Vec::new(), cursor: 0 };
        proof {
            assert(p.contents() =~= Seq::<Item>::empty());
            assert(p@ =~= Seq::<Item>::empty());
        }
        p
    }

    /// The number of values that are not read yet.
    pub fn readable(&self) -> (n: usize)
        requires
            self.wf(),
        ensures
            n == self@.len(),
            n == self.contents().len() - self.position(),
    {
        self.items.len() - self.cursor
    }

    /// How many values have been read.
    pub fn get_read_position(&self) -> (p: usize)
        ensures
            p == self.position(),
    {
        self.cursor
    }

    /// Goes back to a place that was read before, or on to one that is
    /// not read yet. Returns whether there is such a place; the message
    /// stays as it is where there is none.
    pub fn rewind_read(&mut self, position: usize) -> (done: bool)
        requires
            old(self).wf(),
        ensures
            final(self).wf(),
            final(self).contents() == old(self).contents(),
            done == (position <= old(self).contents().len()),
            final(self).position() == (if done {
                position as int
            } else {
                old(self).position()
            }),
    {
        if position <= self.items.len() {
            self.cursor = position;
            true
        } else {
            false
        }
    }

    /// Appends a value.
    pub fn write(&mut self, item: ParcelItem)
        requires
            old(self).wf(),
        ensures
            final(self).wf(),
            final(self).contents() == old(self).contents().push(item@),
            final(self).position() == old(self).position(),
    {
        self.items.push(item);
        proof {
            assert(self.contents() =~= old(self).contents().push(item@));
        }
    }

    pub fn write_i32(&mut self, value: i32)
        requires
            old(self).wf(),
        ensures
            final(self).wf(),
            final(self).contents() == old(self).contents().push(Item::I32(value)),
            final(self).position() == old(self).position(),
    {
        self.write(ParcelItem::I32(value));
    }

    pub fn write_u32(&mut self, value: u32)
        requires
            old(self).wf(),
        ensures
            final(self).wf(),
            final(self).contents() == old(self).contents().push(Item::U32(value)),
            final(self).position() == old(self).position(),
    {
        self.write(ParcelItem::U32(value));
    }

    pub fn write_i64(&mut self, value: i64)
        requires
            old(self).wf(),
        ensures
            final(self).wf(),
            final(self).contents() == old(self).contents().push(Item::I64(value)),
            final(self).position() == old(self).position(),
    {
        self.write(ParcelItem::I64(value));
    }

    pub fn write_u64(&mut self, value: u64)
        requires
            old(self).wf(),
        ensures
            final(self).wf(),
            final(self).contents() == old(self).contents().push(Item::U64(value)),
            final(self).position() == old(self).position(),
    {
        self.write(ParcelItem::U64(value));
    }

    pub fn write_bool(&mut self, value: bool)
        requires
            old(self).wf(),
        ensures
            final(self).wf(),
            final(self).contents() == old(self).contents().push(Item::Bool(value)),
            final(self).position() == old(self).position(),
    {
        self.write(ParcelItem::Bool(value));
    }

    pub fn write_text(&mut self, value: &String)
        requires
            old(self).wf(),
        ensures
            final(self).wf(),
            final(self).contents() == old(self).contents().push(Item::Text(value@)),
            final(self).position() == old(self).position(),
    {
        self.write(ParcelItem::Text(value.clone()));
    }

    pub fn write_fd(&mut self, value: i32)
        requires
            old(self).wf(),
        ensures
            final(self).wf(),
            final(self).contents() == old(self).contents().push(Item::Fd(value)),
            final(self).position() == old(self).position(),
    {
        self.write(ParcelItem::Fd(value));
    }

    /// Reads the next value if it is an `i32`; else the message stays as it
    /// is.
    pub fn read_i32(&mut self) -> (r: Result<i32, IpcStatusCode>)
        requires
            old(self).wf(),
        ensures
            final(self).wf(),
            final(self).contents() == old(self).contents(),
            r.is_ok() == (old(self).position() < old(self).contents().len() && old(
                self,
            ).contents()[old(self).position()] is I32),
            r.is_ok() ==> old(self).contents()[old(self).position()] == Item::I32(r.unwrap())
                && final(self).position() == old(self).position() + 1,
            r.is_err() ==> final(self).position() == old(self).position(),
    {
        if self.cursor < self.items.len() {
            proof {
                assert(self.contents()[self.cursor as int] == self.items@[self.cursor as int]@);
            }
            if let ParcelItem::I32(v) = &self.items[self.cursor] {
                let v = *v;
                self.cursor = self.cursor + 1;
                return Ok(v);
            }
        }
        Err(IpcStatusCode::Failed)
    }

    /// Reads the next value if it is a `u32`; else the message stays as it
    /// is.
    pub fn read_u32(&mut self) -> (r: Result<u32, IpcStatusCode>)
        requires
            old(self).wf(),
        ensures
            final(self).wf(),
            final(self).contents() == old(self).contents(),
            r.is_ok() == (old(self).position() < old(self).contents().len() && old(
                self,
            ).contents()[old(self).position()] is U32),
            r.is_ok() ==> old(self).contents()[old(self).position()] == Item::U32(r.unwrap())
                && final(self).position() == old(self).position() + 1,
            r.is_err() ==> final(self).position() == old(self).position(),
    {
        if self.cursor < self.items.len() {
            proof {
                assert(self.contents()[self.cursor as int] == self.items@[self.cursor as int]@);
            }
            if let ParcelItem::U32(v) = &self.items[self.cursor] {
                let v = *v;
                self.cursor = self.cursor + 1;
                return Ok(v);
            }
        }
        Err(IpcStatusCode::Failed)
    }

    /// Reads the next value if it is an `i64`.
    pub fn read_i64(&mut self) -> (r: Result<i64, IpcStatusCode>)
        requires
            old(self).wf(),
        ensures
            final(self).wf(),
            final(self).contents() == old(self).contents(),
            r.is_ok() == (old(self).position() < old(self).contents().len() && old(
                self,
            ).contents()[old(self).position()] is I64),
            r.is_ok() ==> old(self).contents()[old(self).position()] == Item::I64(r.unwrap())
                && final(self).position() == old(self).position() + 1,
            r.is_err() ==> final(self).position() == old(self).position(),
    {
        if self.cursor < self.items.len() {
            proof {
                assert(self.contents()[self.cursor as int] == self.items@[self.cursor as int]@);
            }
            if let ParcelItem::I64(v) = &self.items[self.cursor] {
                let v = *v;
                self.cursor = self.cursor + 1;
                return Ok(v);
            }
        }
        Err(IpcStatusCode::Failed)
    }

    /// Reads the next value if it is a `u64`.
    pub fn read_u64(&mut self) -> (r: Result<u64, IpcStatusCode>)
        requires
            old(self).wf(),
        ensures
            final(self).wf(),
            final(self).contents() == old(self).contents(),
            r.is_ok() == (old(self).position() < old(self).contents().len() && old(
                self,
            ).contents()[old(self).position()] is U64),
            r.is_ok() ==> old(self).contents()[old(self).position()] == Item::U64(r.unwrap())
                && final(self).position() == old(self).position() + 1,
            r.is_err() ==> final(self).position() == old(self).position(),
    {
        if self.cursor < self.items.len() {
            proof {
                assert(self.contents()[self.cursor as int] == self.items@[self.cursor as int]@);
            }
            if let ParcelItem::U64(v) = &self.items[self.cursor] {
                let v = *v;
                self.cursor = self.cursor + 1;
                return Ok(v);
            }
        }
        Err(IpcStatusCode::Failed)
    }

    /// Reads the next value if it is a `bool`.
    pub fn read_bool(&mut self) -> (r: Result<bool, IpcStatusCode>)
        requires
            old(self).wf(),
        ensures
            final(self).wf(),
            final(self).contents() == old(self).contents(),
            r.is_ok() == (old(self).position() < old(self).contents().len() && old(
                self,
            ).contents()[old(self).position()] is Bool),
            r.is_ok() ==> old(self).contents()[old(self).position()] == Item::Bool(r.unwrap())
                && final(self).position() == old(self).position() + 1,
            r.is_err() ==> final(self).position() == old(self).position(),
    {
        if self.cursor < self.items.len() {
            proof {
                assert(self.contents()[self.cursor as int] == self.items@[self.cursor as int]@);
            }
            if let ParcelItem::Bool(v) = &self.items[self.cursor] {
                let v = *v;
                self.cursor = self.cursor + 1;
                return Ok(v);
            }
        }
        Err(IpcStatusCode::Failed)
    }

    /// Reads the next value if it is a text.
    pub fn read_text(&mut self) -> (r: Result<String, IpcStatusCode>)
        requires
            old(self).wf(),
        ensures
            final(self).wf(),
            final(self).contents() == old(self).contents(),
            r.is_ok() == (old(self).position() < old(self).contents().len() && old(
                self,
            ).contents()[old(self).position()] is Text),
            r.is_ok() ==> old(self).contents()[old(self).position()] == Item::Text(r.unwrap()@)
                && final(self).position() == old(self).position() + 1,
            r.is_err() ==> final(self).position() == old(self).position(),
    {
        if self.cursor < self.items.len() {
            proof {
                assert(self.contents()[self.cursor as int] == self.items@[self.cursor as int]@);
            }
            if let ParcelItem::Text(v) = &self.items[self.cursor] {
                let v = v.clone();
                self.cursor = self.cursor + 1;
                return Ok(v);
            }
        }
        Err(IpcStatusCode::Failed)
    }

    /// Reads the next value if it is a file descriptor.
    pub fn read_fd(&mut self) -> (r: Result<i32, IpcStatusCode>)
        requires
            old(self).wf(),
        ensures
            final(self).wf(),
            final(self).contents() == old(self).contents(),
            r.is_ok() == (old(self).position() < old(self).contents().len() && old(
                self,
            ).contents()[old(self).position()] is Fd),
            r.is_ok() ==> old(self).contents()[old(self).position()] == Item::Fd(r.unwrap())
                && final(self).position() == old(self).position() + 1,
            r.is_err() ==> final(self).position() == old(self).position(),
    {
        if self.cursor < self.items.len() {
            proof {
                assert(self.contents()[self.cursor as int] == self.items@[self.cursor as int]@);
            }
            if let ParcelItem::Fd(v) = &self.items[self.cursor] {
                let v = *v;
                self.cursor = self.cursor + 1;
                return Ok(v);
            }
        }
        Err(IpcStatusCode::Failed)
    }
}

} // verus!
