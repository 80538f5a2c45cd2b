use crate::model::solana_block::SerializedSolanaBlock;
use vstd::prelude::*;
use vstd::string::StrSliceExecFns;

verus! {

/// Why a block could not be had.
#[derive(Debug, Clone, PartialEq, Eq, Structural)]
pub enum GetBlockError {
    RpcError,
    SerializationError,
}

/// Something that fetches blocks by slot number.
pub trait BlockFetcher {
    /// Fetches the block of `slot`, serialized.
    fn get_block(&self, slot: u64) -> Result<SerializedSolanaBlock, GetBlockError>;
}

/// A stand-in for a network client: it answers every request with the same block, or
/// with the same error.
pub struct MockSolanaClient {
    error: Option<GetBlockError>,
    get_block_returns: SerializedSolanaBlock,
}

/// The text of the block that a new `MockSolanaClient` hands out.
pub open spec fn mock_block_data() -> Seq<char> {
    "{ \"name\": \"hello_world\" }"@
}

impl MockSolanaClient {
    /// The error that every request is answered with, if any.
    pub closed spec fn error(&self) -> Option<GetBlockError> {
        self.error
    }

    /// The block that every request is answered with when there is no error.
    pub closed spec fn returned_block(&self) -> SerializedSolanaBlock {
        self.get_block_returns
    }

    /// A client that answers every request with the block of slot 123 whose data is
    /// `{ "name": "hello_world" }`.
    pub fn new() -> (client: Self)
        ensures
            client.error() is None,
            client.returned_block().slot_number == 123,
            client.returned_block().data@ == mock_block_data(),
    {
        MockSolanaClient {
            error: None,
            get_block_returns: SerializedSolanaBlock {
                slot_number: 123,
                data: "{ \"name\": \"hello_world\" }".to_owned(),
            },
        }
    }
}

impl BlockFetcher for MockSolanaClient {
    fn get_block(&self, slot: u64) -> (r: Result<SerializedSolanaBlock, GetBlockError>)
        ensures
            match self.error() {
                Some(e) => r == Err::<SerializedSolanaBlock, GetBlockError>(e),
                None => r matches Ok(block) && block.slot_number
                    == self.returned_block().slot_number && block.data@
                    == self.returned_block().data@,
            },
    {
        match &self.error {
            Some(GetBlockError::RpcError) => Err(GetBlockError::RpcError),
            Some(GetBlockError::SerializationError) => Err(GetBlockError::SerializationError),
            None => Ok(
                SerializedSolanaBlock {
                    slot_number: self.get_block_returns.slot_number,
                    data: self.get_block_returns.data.clone(),
                },
            ),
        }
    }
}

/// Which kind of block fetcher a factory hands out: the stand-in, or a network client
/// for the RPC endpoint at the given URL.
pub enum BlockFetcherKind {
    Mock(MockSolanaClient),
    Rpc(String),
}

/// Decides which block fetcher the application uses.
pub struct BlockFetcherFactory {
    use_mock: bool,
    rpc_url: String,
}

impl BlockFetcherFactory {
    /// Whether the factory hands out the stand-in.
    pub closed spec fn uses_mock(&self) -> bool {
        self.use_mock
    }

    /// The URL of the RPC endpoint.
    pub closed spec fn rpc_url(&self) -> Seq<char> {
        self.rpc_url@
    }

    pub fn new(use_mock: bool, rpc_url: &str) -> (factory: Self)
        ensures
            factory.uses_mock() == use_mock,
            factory.rpc_url() == rpc_url@,
    {
        BlockFetcherFactory { use_mock, rpc_url: rpc_url.to_owned() }
    }

    /// The stand-in when the factory was asked for it, else a network client for its URL.
    pub fn create_block_fetcher(&self) -> (kind: BlockFetcherKind)
        ensures
            self.uses_mock() ==> (kind matches BlockFetcherKind::Mock(client) && client.error() is None
                && client.returned_block().slot_number == 123 && client.returned_block().data@
                == mock_block_data()),
            !self.uses_mock() ==> (kind matches BlockFetcherKind::Rpc(url) && url@ == self.rpc_url()),
    {
        if self.use_mock {
            BlockFetcherKind::Mock(MockSolanaClient::new())
        } else {
            BlockFetcherKind::Rpc(self.rpc_url.clone())
        }
    }
}

/// `needle` occurs in `haystack` as a contiguous stretch.
pub open spec fn occurs_in(needle: Seq<char>, haystack: Seq<char>) -> bool {
    exists|i: int|
        0 <= i && i + needle.len() <= haystack.len() && #[trigger] haystack.subrange(
            i,
            i + needle.len(),
        ) == needle
}

fn chars_of(s: &str) -> (v: Vec<char>)
    ensures
        v@ == s@,
{
    let n = s.unicode_len();
    let mut v: Vec<char> = Vec::new();
    let mut i: usize = 0;
    while i < n
        invariant
            n == s@.len(),
            i <= n,
            v@ == s@.subrange(0, i as int),
        decreases n - i,
    {
        v.push(s.get_char(i));
        i = i + 1;
    }
    proof {
        assert(s@.subrange(0, n as int) =~= s@);
    }
    v
}

fn occurs(needle: &str, haystack: &Vec<char>) -> (r: bool)
    ensures
        r == occurs_in(needle@, haystack@),
{
    let needle_chars = chars_of(needle);
    let m = needle_chars.len();
    let n = haystack.len();
    if m > n {
        proof {
            assert forall|i: int|
                0 <= i && i + m <= n implies #[trigger] haystack@.subrange(i, i + m) != needle@ by {}
        }
        return false;
    }
    let mut i: usize = 0;
    while i <= n - m
        invariant
            m == needle@.len(),
            needle_chars@ == needle@,
            n == haystack@.len(),
            m <= n,
            i <= n - m + 1,
            forall|k: int| 0 <= k < i ==> #[trigger] haystack@.subrange(k, k + m) != needle@,
        decreases n - i,
    {
        let mut j: usize = 0;
        let mut matched = true;
        while j < m
            invariant
                m == needle@.len(),
                needle_chars@ == needle@,
                n == haystack@.len(),
                i + m <= n,
                j <= m,
                matched == forall|t: int| 0 <= t < j ==> haystack@[i + t] == needle@[t],
            decreases m - j,
        {
            if haystack[i + j] != needle_chars[j] {
                matched = false;
            }
            j = j + 1;
        }
        if matched {
            proof {
                assert(haystack@.subrange(i as int, i + m) =~= needle@);
            }
            return true;
        }
        proof {
            let t = choose|t: int| 0 <= t < m && haystack@[i + t] != needle@[t];
            assert(haystack@.subrange(i as int, i + m)[t] != needle@[t]);
        }
        i = i + 1;
    }
    false
}

/// The RPC error codes that say a slot was skipped or its block is not available.
pub open spec fn is_unavailable_slot_message(message: Seq<char>) -> bool {
    ||| occurs_in("-32009"@, message)
    ||| occurs_in("-32004"@, message)
    ||| occurs_in("-32007"@, message)
}

/// Whether an RPC error message names one of the codes for a skipped or unavailable slot;
/// such failures are expected and reported quietly.
pub fn is_unavailable_slot_error(message: &str) -> (r: bool)
    ensures
        r == is_unavailable_slot_message(message@),
{
    let chars = chars_of(message);
    occurs("-32009", &chars) || occurs("-32004", &chars) || occurs("-32007", &chars)
}

} // verus!
