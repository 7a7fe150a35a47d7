use vstd::prelude::*;
use crate::structure::guid::GUID;
use crate::structure::locator::LocatorList;

verus! {

/// What discovery has learned of the addresses of a remote writer.
#[derive(Debug)]
pub struct WriterProxy {
    pub remote_writer_guid: Option<GUID>,
    pub unicast_locator_list: LocatorList,
    pub multicast_locator_list: LocatorList,
}

/// The descriptor of a remote writer, as discovery hands it to a reader.
#[derive(Debug)]
pub struct DiscoveredWriterData {
    pub writer_proxy: WriterProxy,
}

/// What discovery has learned of the addresses of a remote reader.
#[derive(Debug)]
pub struct ReaderProxy {
    pub remote_reader_guid: Option<GUID>,
    pub expects_inline_qos: bool,
    pub unicast_locator_list: LocatorList,
    pub multicast_locator_list: LocatorList,
}

/// The descriptor of a remote reader, as discovery hands it to a writer.
#[derive(Debug)]
pub struct DiscoveredReaderData {
    pub reader_proxy: ReaderProxy,
    pub reliable: bool,
}

} // verus!
