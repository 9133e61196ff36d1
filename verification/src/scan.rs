//! Library scanning: walk a library root per kind (book, comic, video)
//! and produce structured, naturally-ordered entries.
//!
//! Callers enumerate the directories and hand the raw listings here as
//! plain values; the filtering (hidden entries, recognized extensions),
//! the entry assembly (deterministic ids, titles, asset URIs) and the
//! final natural-order sort are verified. Unreadable sub-entries are the
//! caller's to skip; only the library root failing to open is a hard
//! error, and that too is the caller's.

use vstd::prelude::*;
use crate::cover::{first_match, lemma_first_match};
use crate::digest::uuid5_of;
use crate::names::{spec_is_book_name, spec_is_hidden, spec_is_video_name, spec_stem};
use crate::natural::{nat_cmp, nat_compare, sorted_natural, keys_of, NaturalKeyed};
use crate::percent::spec_asset_url;

verus! {

/// A book entry: one recognized file under an author directory.
pub struct Book {
    pub id: String,
    pub title: String,
    pub path: String,
    pub author_id: String,
    pub library_id: String,
    pub size: u64,
    pub created_at: u64,
    pub starred: bool,
    pub deleted: bool,
}

/// An author entry: one subdirectory of a book library, with its books.
pub struct Author {
    pub id: String,
    pub name: String,
    pub path: String,
    pub library_id: String,
    pub book_count: u32,
    pub books: Vec<Book>,
}

/// The mathematical content of a `Book`.
pub struct BookView {
    pub id: Seq<char>,
    pub title: Seq<char>,
    pub path: Seq<char>,
    pub author_id: Seq<char>,
    pub library_id: Seq<char>,
    pub size: u64,
    pub created_at: u64,
    pub starred: bool,
    pub deleted: bool,
}

/// The mathematical content of an `Author`.
pub struct AuthorView {
    pub id: Seq<char>,
    pub name: Seq<char>,
    pub path: Seq<char>,
    pub library_id: Seq<char>,
    pub book_count: u32,
    pub books: Seq<BookView>,
}

impl View for Book {
    type V = BookView;

    open spec fn view(&self) -> BookView {
        BookView {
            id: self.id@,
            title: self.title@,
            path: self.path@,
            author_id: self.author_id@,
            library_id: self.library_id@,
            size: self.size,
            created_at: self.created_at,
            starred: self.starred,
            deleted: self.deleted,
        }
    }
}

impl View for Author {
    type V = AuthorView;

    open spec fn view(&self) -> AuthorView {
        AuthorView {
            id: self.id@,
            name: self.name@,
            path: self.path@,
            library_id: self.library_id@,
            book_count: self.book_count,
            books: self.books@.map_values(|b: Book| b@),
        }
    }
}

/// One file found under an author directory, as the caller saw it.
pub struct BookSource {
    /// The file's name.
    pub filename: String,
    /// The file's absolute path.
    pub path: String,
    /// Size in bytes; 0 when the metadata could not be read.
    pub size: u64,
    /// Creation time in milliseconds since the epoch (the caller's
    /// fallback when unavailable).
    pub created_at: u64,
    /// The file's starred tag.
    pub starred: bool,
    /// The file's deleted tag.
    pub deleted: bool,
}

/// One entry of the library root, as the caller saw it.
pub struct AuthorSource {
    /// The entry's name.
    pub name: String,
    /// The entry's absolute path.
    pub path: String,
    /// Is the entry a directory?
    pub is_dir: bool,
    /// The files found inside, in the order the caller met them.
    pub books: Vec<BookSource>,
}

/// Is this root entry scanned as an author?
pub open spec fn keep_author(a: AuthorSource) -> bool {
    a.is_dir && !spec_is_hidden(a.name@)
}

/// Is this file scanned as a book?
pub open spec fn keep_book(b: BookSource) -> bool {
    !spec_is_hidden(b.filename@) && spec_is_book_name(b.filename@)
}

/// The book entry a source file becomes.
pub open spec fn spec_book(b: BookSource, author_id: Seq<char>, lib: Seq<char>) -> BookView {
    BookView {
        id: uuid5_of(b.path@),
        title: spec_stem(b.filename@),
        path: b.path@,
        author_id: author_id,
        library_id: lib,
        size: b.size,
        created_at: b.created_at,
        starred: b.starred,
        deleted: b.deleted,
    }
}

/// The book entries of one author directory, recognized files only.
pub open spec fn spec_books(books: Seq<BookSource>, author_id: Seq<char>, lib: Seq<char>) -> Seq<
    BookView,
>
    decreases books.len(),
{
    if books.len() == 0 {
        Seq::empty()
    } else {
        let rest = spec_books(books.drop_last(), author_id, lib);
        if keep_book(books.last()) {
            rest.push(spec_book(books.last(), author_id, lib))
        } else {
            rest
        }
    }
}

/// A count clipped to `u32`.
pub open spec fn clip_u32(n: int) -> u32 {
    if n <= u32::MAX {
        n as u32
    } else {
        u32::MAX
    }
}

/// The author entry a root entry becomes.
pub open spec fn spec_author(a: AuthorSource, lib: Seq<char>) -> AuthorView {
    let books = spec_books(a.books@, uuid5_of(a.path@), lib);
    AuthorView {
        id: uuid5_of(a.path@),
        name: a.name@,
        path: a.path@,
        library_id: lib,
        book_count: clip_u32(books.len() as int),
        books: books,
    }
}

/// The author entries of a book library: non-hidden directories only, in
/// listing order.
pub open spec fn spec_authors(authors: Seq<AuthorSource>, lib: Seq<char>) -> Seq<AuthorView>
    decreases authors.len(),
{
    if authors.len() == 0 {
        Seq::empty()
    } else {
        let rest = spec_authors(authors.drop_last(), lib);
        if keep_author(authors.last()) {
            rest.push(spec_author(authors.last(), lib))
        } else {
            rest
        }
    }
}

/// Scan a book library: every non-hidden directory of the root becomes
/// an author, every recognized book file inside it a book. Ids are
/// deterministic digests of the absolute paths; titles drop the file
/// extension.
pub fn scan_book_library(authors: Vec<AuthorSource>, library_id: &str) -> (r: Vec<Author>)
    ensures
        r@.map_values(|a: Author| a@) == spec_authors(authors@, library_id@),
{
    let mut out: Vec<Author> = Vec::new();
    let ghost src = authors@;
    let mut rest = authors;
    let n_src = rest.len();
    let mut i: usize = 0;
    proof {
        assert(src.take(0) =~= Seq::<AuthorSource>::empty());
        assert(src.skip(0) =~= src);
        assert(out@.map_values(|a: Author| a@) =~= spec_authors(src.take(0), library_id@));
    }
    while rest.len() > 0
        invariant
            i <= src.len(),
            src.len() == n_src,
            rest@ == src.skip(i as int),
            out@.map_values(|a: Author| a@) == spec_authors(src.take(i as int), library_id@),
        decreases rest@.len(),
    {
        proof {
            assert(src.skip(i as int)[0] == src[i as int]);
            assert(src.skip(i as int).drop_first() =~= src.skip(i + 1));
            assert(src.take(i + 1).drop_last() =~= src.take(i as int));
            assert(src.take(i + 1).last() == src[i as int]);
        }
        let a = rest.remove(0);
        let keep = a.is_dir && !crate::names::is_hidden(a.name.as_str());
        if keep {
            let author_id = crate::digest::generate_uuid(a.path.as_str());
            let mut books: Vec<Book> = Vec::new();
            let ghost bsrc = a.books@;
            let mut brest = a.books;
            let n_bsrc = brest.len();
            let mut j: usize = 0;
            proof {
                assert(bsrc.take(0) =~= Seq::<BookSource>::empty());
                assert(bsrc.skip(0) =~= bsrc);
                assert(books@.map_values(|b: Book| b@) =~= spec_books(
                    bsrc.take(0),
                    author_id@,
                    library_id@,
                ));
            }
            while brest.len() > 0
                invariant
                    j <= bsrc.len(),
                    bsrc.len() == n_bsrc,
                    i < src.len(),
                    brest@ == bsrc.skip(j as int),
                    author_id@ == uuid5_of(src[i as int].path@),
                    books@.map_values(|b: Book| b@) == spec_books(
                        bsrc.take(j as int),
                        author_id@,
                        library_id@,
                    ),
                decreases brest@.len(),
            {
                proof {
                    assert(bsrc.skip(j as int)[0] == bsrc[j as int]);
                    assert(bsrc.skip(j as int).drop_first() =~= bsrc.skip(j + 1));
                    assert(bsrc.take(j + 1).drop_last() =~= bsrc.take(j as int));
                    assert(bsrc.take(j + 1).last() == bsrc[j as int]);
                }
                let b = brest.remove(0);
                let keep_b = !crate::names::is_hidden(b.filename.as_str())
                    && crate::names::is_book_file(b.filename.as_str());
                if keep_b {
                    let book = Book {
                        id: crate::digest::generate_uuid(b.path.as_str()),
                        title: crate::names::remove_extension(b.filename.as_str()),
                        path: b.path,
                        author_id: author_id.clone(),
                        library_id: library_id.to_owned(),
                        size: b.size,
                        created_at: b.created_at,
                        starred: b.starred,
                        deleted: b.deleted,
                    };
                    let ghost prior = books@;
                    books.push(book);
                    proof {
                        assert(books@.map_values(|bk: Book| bk@) =~= prior.map_values(
                            |bk: Book| bk@,
                        ).push(spec_book(bsrc[j as int], author_id@, library_id@)));
                    }
                } else {
                    proof {
                        assert(books@.map_values(|bk: Book| bk@) == spec_books(
                            bsrc.take(j + 1),
                            author_id@,
                            library_id@,
                        ));
                    }
                }
                j = j + 1;
            }
            proof {
                assert(bsrc.take(bsrc.len() as int) =~= bsrc);
            }
            let book_count = clip_len(books.len());
            let author = Author {
                id: author_id,
                name: a.name,
                path: a.path,
                library_id: library_id.to_owned(),
                book_count,
                books,
            };
            let ghost prior = out@;
            out.push(author);
            proof {
                assert(out@.map_values(|x: Author| x@) =~= prior.map_values(|x: Author| x@).push(
                    spec_author(src[i as int], library_id@),
                ));
            }
        } else {
            proof {
                assert(out@.map_values(|x: Author| x@) == spec_authors(
                    src.take(i + 1),
                    library_id@,
                ));
            }
        }
        i = i + 1;
    }
    proof {
        assert(src.take(src.len() as int) =~= src);
    }
    out
}

/// A length clipped to `u32`.
fn clip_len(n: usize) -> (r: u32)
    ensures
        r == clip_u32(n as int),
{
    if n <= 0xffff_ffff {
        n as u32
    } else {
        u32::MAX
    }
}

/// A comic entry: one subdirectory of a comic library.
pub struct Comic {
    pub id: String,
    pub title: String,
    pub path: String,
    pub cover: String,
    pub library_id: String,
    pub created_at: u64,
    pub starred: bool,
    pub deleted: bool,
}

/// The mathematical content of a `Comic`.
pub struct ComicView {
    pub id: Seq<char>,
    pub title: Seq<char>,
    pub path: Seq<char>,
    pub cover: Seq<char>,
    pub library_id: Seq<char>,
    pub created_at: u64,
    pub starred: bool,
    pub deleted: bool,
}

impl View for Comic {
    type V = ComicView;

    open spec fn view(&self) -> ComicView {
        ComicView {
            id: self.id@,
            title: self.title@,
            path: self.path@,
            cover: self.cover@,
            library_id: self.library_id@,
            created_at: self.created_at,
            starred: self.starred,
            deleted: self.deleted,
        }
    }
}

impl NaturalKeyed for Comic {
    open spec fn nat_key(&self) -> Seq<char> {
        self.title@
    }

    fn key_compare(&self, other: &Self) -> (r: i8) {
        nat_compare(self.title.as_str(), other.title.as_str())
    }
}

/// One entry of a comic library root, as the caller saw it. The cover
/// URI is resolved by the caller through the cache engine before the
/// entries are assembled.
pub struct ComicSource {
    /// The entry's name.
    pub name: String,
    /// The entry's absolute path.
    pub path: String,
    /// Is the entry a directory?
    pub is_dir: bool,
    /// Creation time in milliseconds since the epoch.
    pub created_at: u64,
    /// The directory's starred tag.
    pub starred: bool,
    /// The directory's deleted tag.
    pub deleted: bool,
    /// The resolved cover URI, or empty when the folder has none.
    pub cover: String,
}

/// Is this root entry scanned as a comic?
pub open spec fn keep_comic(c: ComicSource) -> bool {
    c.is_dir && !spec_is_hidden(c.name@)
}

/// The comic entry a source becomes.
pub open spec fn spec_comic(c: ComicSource, lib: Seq<char>) -> ComicView {
    ComicView {
        id: uuid5_of(c.path@),
        title: c.name@,
        path: c.path@,
        cover: c.cover@,
        library_id: lib,
        created_at: c.created_at,
        starred: c.starred,
        deleted: c.deleted,
    }
}

/// The comic entries of a library: non-hidden directories only.
pub open spec fn spec_comics(items: Seq<ComicSource>, lib: Seq<char>) -> Seq<ComicView>
    decreases items.len(),
{
    if items.len() == 0 {
        Seq::empty()
    } else {
        let rest = spec_comics(items.drop_last(), lib);
        if keep_comic(items.last()) {
            rest.push(spec_comic(items.last(), lib))
        } else {
            rest
        }
    }
}

/// Scan a comic library: every non-hidden directory becomes a comic,
/// with a deterministic id and the caller-resolved cover; the list is
/// sorted by natural order of the titles.
pub fn scan_comic_library(items: Vec<ComicSource>, library_id: &str) -> (r: Vec<Comic>)
    ensures
        sorted_natural(keys_of(r@)),
        r@.map_values(|c: Comic| c@).to_multiset() == spec_comics(
            items@,
            library_id@,
        ).to_multiset(),
        r@.len() == spec_comics(items@, library_id@).len(),
{
    let mut out: Vec<Comic> = Vec::new();
    let ghost src = items@;
    let mut rest = items;
    let n_src = rest.len();
    let mut i: usize = 0;
    proof {
        assert(src.take(0) =~= Seq::<ComicSource>::empty());
        assert(src.skip(0) =~= src);
        assert(out@.map_values(|c: Comic| c@) =~= spec_comics(src.take(0), library_id@));
    }
    while rest.len() > 0
        invariant
            i <= src.len(),
            src.len() == n_src,
            rest@ == src.skip(i as int),
            out@.map_values(|c: Comic| c@) == spec_comics(src.take(i as int), library_id@),
        decreases rest@.len(),
    {
        proof {
            assert(src.skip(i as int)[0] == src[i as int]);
            assert(src.skip(i as int).drop_first() =~= src.skip(i + 1));
            assert(src.take(i + 1).drop_last() =~= src.take(i as int));
            assert(src.take(i + 1).last() == src[i as int]);
        }
        let c = rest.remove(0);
        let keep = c.is_dir && !crate::names::is_hidden(c.name.as_str());
        if keep {
            let comic = Comic {
                id: crate::digest::generate_uuid(c.path.as_str()),
                title: c.name,
                path: c.path,
                cover: c.cover,
                library_id: library_id.to_owned(),
                created_at: c.created_at,
                starred: c.starred,
                deleted: c.deleted,
            };
            let ghost prior = out@;
            out.push(comic);
            proof {
                assert(out@.map_values(|x: Comic| x@) =~= prior.map_values(|x: Comic| x@).push(
                    spec_comic(src[i as int], library_id@),
                ));
            }
        } else {
            proof {
                assert(out@.map_values(|x: Comic| x@) == spec_comics(src.take(i + 1), library_id@));
            }
        }
        i = i + 1;
    }
    proof {
        assert(src.take(src.len() as int) =~= src);
    }
    let ghost built = out@;
    let sorted = crate::natural::sort_natural(out);
    proof {
        crate::natural::lemma_map_values_multiset(sorted@, built, |c: Comic| c@);
    }
    sorted
}

/// A video entry: one recognized file of a video library.
pub struct Video {
    pub id: String,
    pub title: String,
    pub path: String,
    pub url: String,
    pub cover: String,
    pub library_id: String,
    pub created_at: u64,
    pub size: u64,
    pub duration: u64,
    pub starred: bool,
    pub deleted: bool,
}

/// The mathematical content of a `Video`.
pub struct VideoView {
    pub id: Seq<char>,
    pub title: Seq<char>,
    pub path: Seq<char>,
    pub url: Seq<char>,
    pub cover: Seq<char>,
    pub library_id: Seq<char>,
    pub created_at: u64,
    pub size: u64,
    pub duration: u64,
    pub starred: bool,
    pub deleted: bool,
}

impl View for Video {
    type V = VideoView;

    open spec fn view(&self) -> VideoView {
        VideoView {
            id: self.id@,
            title: self.title@,
            path: self.path@,
            url: self.url@,
            cover: self.cover@,
            library_id: self.library_id@,
            created_at: self.created_at,
            size: self.size,
            duration: self.duration,
            starred: self.starred,
            deleted: self.deleted,
        }
    }
}

impl NaturalKeyed for Video {
    open spec fn nat_key(&self) -> Seq<char> {
        self.title@
    }

    fn key_compare(&self, other: &Self) -> (r: i8) {
        nat_compare(self.title.as_str(), other.title.as_str())
    }
}

/// One entry of a video library root, as the caller saw it. The cover
/// URI is resolved by the caller (the video-cover tool is an external
/// collaborator); empty when none could be made.
pub struct VideoSource {
    /// The file's name.
    pub filename: String,
    /// The file's absolute path.
    pub path: String,
    /// Is the entry a plain file?
    pub is_file: bool,
    /// Size in bytes.
    pub size: u64,
    /// Creation time in milliseconds since the epoch.
    pub created_at: u64,
    /// The file's starred tag.
    pub starred: bool,
    /// The file's deleted tag.
    pub deleted: bool,
    /// The resolved cover URI, or empty.
    pub cover: String,
}

/// Is this root entry scanned as a video?
pub open spec fn keep_video(v: VideoSource) -> bool {
    v.is_file && !spec_is_hidden(v.filename@) && crate::names::spec_is_video_name(v.filename@)
}

/// The video entry a source becomes.
pub open spec fn spec_video(v: VideoSource, lib: Seq<char>) -> VideoView {
    VideoView {
        id: uuid5_of(v.path@),
        title: spec_stem(v.filename@),
        path: v.path@,
        url: spec_asset_url(v.path@),
        cover: v.cover@,
        library_id: lib,
        created_at: v.created_at,
        size: v.size,
        duration: 0,
        starred: v.starred,
        deleted: v.deleted,
    }
}

/// The video entries of a library: non-hidden recognized video files.
pub open spec fn spec_videos(items: Seq<VideoSource>, lib: Seq<char>) -> Seq<VideoView>
    decreases items.len(),
{
    if items.len() == 0 {
        Seq::empty()
    } else {
        let rest = spec_videos(items.drop_last(), lib);
        if keep_video(items.last()) {
            rest.push(spec_video(items.last(), lib))
        } else {
            rest
        }
    }
}

/// Scan a video library: every non-hidden recognized video file becomes
/// an entry with a deterministic id, the asset URI of its path, and the
/// caller-resolved cover; the list is sorted by natural order of the
/// titles.
pub fn scan_video_library(items: Vec<VideoSource>, library_id: &str) -> (r: Vec<Video>)
    ensures
        sorted_natural(keys_of(r@)),
        r@.map_values(|v: Video| v@).to_multiset() == spec_videos(
            items@,
            library_id@,
        ).to_multiset(),
        r@.len() == spec_videos(items@, library_id@).len(),
{
    let mut out: Vec<Video> = Vec::new();
    let ghost src = items@;
    let mut rest = items;
    let n_src = rest.len();
    let mut i: usize = 0;
    proof {
        assert(src.take(0) =~= Seq::<VideoSource>::empty());
        assert(src.skip(0) =~= src);
        assert(out@.map_values(|v: Video| v@) =~= spec_videos(src.take(0), library_id@));
    }
    while rest.len() > 0
        invariant
            i <= src.len(),
            src.len() == n_src,
            rest@ == src.skip(i as int),
            out@.map_values(|v: Video| v@) == spec_videos(src.take(i as int), library_id@),
        decreases rest@.len(),
    {
        proof {
            assert(src.skip(i as int)[0] == src[i as int]);
            assert(src.skip(i as int).drop_first() =~= src.skip(i + 1));
            assert(src.take(i + 1).drop_last() =~= src.take(i as int));
            assert(src.take(i + 1).last() == src[i as int]);
        }
        let v = rest.remove(0);
        let keep = v.is_file && !crate::names::is_hidden(v.filename.as_str())
            && crate::names::is_video_file(v.filename.as_str());
        if keep {
            let video = Video {
                id: crate::digest::generate_uuid(v.path.as_str()),
                title: crate::names::remove_extension(v.filename.as_str()),
                url: crate::percent::convert_file_src(v.path.as_str()),
                path: v.path,
                cover: v.cover,
                library_id: library_id.to_owned(),
                created_at: v.created_at,
                size: v.size,
                duration: 0,
                starred: v.starred,
                deleted: v.deleted,
            };
            let ghost prior = out@;
            out.push(video);
            proof {
                assert(out@.map_values(|x: Video| x@) =~= prior.map_values(|x: Video| x@).push(
                    spec_video(src[i as int], library_id@),
                ));
            }
        } else {
            proof {
                assert(out@.map_values(|x: Video| x@) == spec_videos(src.take(i + 1), library_id@));
            }
        }
        i = i + 1;
    }
    proof {
        assert(src.take(src.len() as int) =~= src);
    }
    let ghost built = out@;
    let sorted = crate::natural::sort_natural(out);
    proof {
        crate::natural::lemma_map_values_multiset(sorted@, built, |v: Video| v@);
    }
    sorted
}

/// One page image of a comic.
pub struct ComicImage {
    pub path: String,
    pub url: String,
    pub thumbnail: String,
    pub filename: String,
    pub width: u32,
    pub height: u32,
    pub starred: bool,
    pub deleted: bool,
    pub index: u32,
}

/// The mathematical content of a `ComicImage`, apart from its position
/// in the sorted list.
pub struct ComicImageView {
    pub path: Seq<char>,
    pub url: Seq<char>,
    pub thumbnail: Seq<char>,
    pub filename: Seq<char>,
    pub width: u32,
    pub height: u32,
    pub starred: bool,
    pub deleted: bool,
}

impl View for ComicImage {
    type V = ComicImageView;

    open spec fn view(&self) -> ComicImageView {
        ComicImageView {
            path: self.path@,
            url: self.url@,
            thumbnail: self.thumbnail@,
            filename: self.filename@,
            width: self.width,
            height: self.height,
            starred: self.starred,
            deleted: self.deleted,
        }
    }
}

impl NaturalKeyed for ComicImage {
    open spec fn nat_key(&self) -> Seq<char> {
        self.filename@
    }

    fn key_compare(&self, other: &Self) -> (r: i8) {
        nat_compare(self.filename.as_str(), other.filename.as_str())
    }
}

/// One entry of a comic directory, as the caller saw it. Dimensions and
/// the thumbnail URI come from the cache engine; on a failed transcode
/// the caller passes the placeholder dimensions.
pub struct ImageSource {
    /// The file's name.
    pub filename: String,
    /// The file's absolute path.
    pub path: String,
    /// Is the entry a plain file?
    pub is_file: bool,
    /// The image's width (or the placeholder).
    pub width: u32,
    /// The image's height (or the placeholder).
    pub height: u32,
    /// The file's starred tag.
    pub starred: bool,
    /// The file's deleted tag.
    pub deleted: bool,
    /// The resolved thumbnail URI.
    pub thumbnail: String,
}

/// Is this directory entry scanned as a page image?
pub open spec fn keep_image(s: ImageSource) -> bool {
    s.is_file && !spec_is_hidden(s.filename@) && crate::names::spec_is_image_name(s.filename@)
}

/// The page entry a source becomes.
pub open spec fn spec_image(s: ImageSource) -> ComicImageView {
    ComicImageView {
        path: s.path@,
        url: spec_asset_url(s.path@),
        thumbnail: s.thumbnail@,
        filename: s.filename@,
        width: s.width,
        height: s.height,
        starred: s.starred,
        deleted: s.deleted,
    }
}

/// The page entries of a comic directory: non-hidden recognized images.
pub open spec fn spec_images(items: Seq<ImageSource>) -> Seq<ComicImageView>
    decreases items.len(),
{
    if items.len() == 0 {
        Seq::empty()
    } else {
        let rest = spec_images(items.drop_last());
        if keep_image(items.last()) {
            rest.push(spec_image(items.last()))
        } else {
            rest
        }
    }
}

/// Scan the pages of one comic: every non-hidden recognized image file
/// becomes an entry; the list is sorted by natural order of the file
/// names and then indexed in that order.
pub fn scan_comic_images(items: Vec<ImageSource>) -> (r: Vec<ComicImage>)
    requires
        items@.len() <= u32::MAX,
    ensures
        sorted_natural(keys_of(r@)),
        r@.map_values(|s: ComicImage| s@).to_multiset() == spec_images(items@).to_multiset(),
        r@.len() == spec_images(items@).len(),
        forall|k: int| 0 <= k < r@.len() ==> (#[trigger] r@[k]).index as int == k,
{
    let mut out: Vec<ComicImage> = Vec::new();
    let ghost src = items@;
    let mut rest = items;
    let n_src = rest.len();
    let mut i: usize = 0;
    proof {
        assert(src.take(0) =~= Seq::<ImageSource>::empty());
        assert(src.skip(0) =~= src);
        assert(out@.map_values(|s: ComicImage| s@) =~= spec_images(src.take(0)));
    }
    while rest.len() > 0
        invariant
            i <= src.len(),
            src.len() == n_src,
            rest@ == src.skip(i as int),
            out@.len() <= i,
            out@.map_values(|s: ComicImage| s@) == spec_images(src.take(i as int)),
        decreases rest@.len(),
    {
        proof {
            assert(src.skip(i as int)[0] == src[i as int]);
            assert(src.skip(i as int).drop_first() =~= src.skip(i + 1));
            assert(src.take(i + 1).drop_last() =~= src.take(i as int));
            assert(src.take(i + 1).last() == src[i as int]);
        }
        let s = rest.remove(0);
        let keep = s.is_file && !crate::names::is_hidden(s.filename.as_str())
            && crate::names::is_image_file(s.filename.as_str());
        if keep {
            let img = ComicImage {
                url: crate::percent::convert_file_src(s.path.as_str()),
                path: s.path,
                thumbnail: s.thumbnail,
                filename: s.filename,
                width: s.width,
                height: s.height,
                starred: s.starred,
                deleted: s.deleted,
                index: 0,
            };
            let ghost prior = out@;
            out.push(img);
            proof {
                assert(out@.map_values(|x: ComicImage| x@) =~= prior.map_values(
                    |x: ComicImage| x@,
                ).push(spec_image(src[i as int])));
            }
        } else {
            proof {
                assert(out@.map_values(|x: ComicImage| x@) == spec_images(src.take(i + 1)));
            }
        }
        i = i + 1;
    }
    proof {
        assert(src.take(src.len() as int) =~= src);
    }
    let ghost built = out@;
    let mut sorted = crate::natural::sort_natural(out);
    proof {
        crate::natural::lemma_map_values_multiset(sorted@, built, |s: ComicImage| s@);
    }
    let ghost sorted0 = sorted@;
    // assign the position in reading order
    let mut indexed: Vec<ComicImage> = Vec::new();
    let mut j: usize = 0;
    let n_sorted = sorted.len();
    proof {
        assert(sorted0.skip(0) =~= sorted0);
    }
    while sorted.len() > 0
        invariant
            j <= sorted0.len(),
            sorted0.len() == n_sorted,
            sorted0.len() <= u32::MAX,
            sorted@ == sorted0.skip(j as int),
            indexed@.len() == j,
            forall|k: int| 0 <= k < j ==> (#[trigger] indexed@[k])@ == sorted0[k]@,
            forall|k: int| 0 <= k < j ==> (#[trigger] indexed@[k]).index as int == k,
            forall|k: int| 0 <= k < j ==> (#[trigger] indexed@[k]).nat_key()
                == sorted0[k].nat_key(),
        decreases sorted@.len(),
    {
        proof {
            assert(sorted0.skip(j as int)[0] == sorted0[j as int]);
            assert(sorted0.skip(j as int).drop_first() =~= sorted0.skip(j + 1));
        }
        let mut img = sorted.remove(0);
        if j <= 0xffff_ffff {
            img.index = j as u32;
        } else {
            img.index = u32::MAX;
        }
        indexed.push(img);
        j = j + 1;
    }
    proof {
        assert(indexed@.map_values(|s: ComicImage| s@) =~= sorted0.map_values(
            |s: ComicImage| s@,
        ));
        assert(keys_of(indexed@) =~= keys_of(sorted0));
        assert(sorted_natural(keys_of(indexed@)));
        assert(j == n_sorted);
        assert forall|k: int| 0 <= k < indexed@.len() implies (#[trigger] indexed@[k]).index as int
            == k by {
            assert(indexed@[k].index as int == k);
        }
    }
    indexed
}

/// One root entry examined while detecting a library's kind: for a
/// directory, the names found inside it, in the order the caller met
/// them.
pub struct EntryProbe {
    /// The entry's name.
    pub name: String,
    /// Is the entry a plain file?
    pub is_file: bool,
    /// Is the entry a directory?
    pub is_dir: bool,
    /// For a directory: the names inside it.
    pub sub_names: Vec<String>,
}

/// The views of a probe's inner names.
pub open spec fn sub_views(e: EntryProbe) -> Seq<Seq<char>> {
    e.sub_names@.map_values(|s: String| s@)
}

/// The kind of a library, from its root entries: a non-hidden video file
/// makes it a video library; otherwise the first non-hidden entry of the
/// first directory that has one decides — a book file makes it a book
/// library, anything else a comic library; with nothing to go by it is a
/// comic library.
pub open spec fn spec_library_type(entries: Seq<EntryProbe>) -> Seq<char>
    decreases entries.len(),
{
    if entries.len() == 0 {
        "comic"@
    } else {
        let e = entries[0];
        if spec_is_hidden(e.name@) {
            spec_library_type(entries.drop_first())
        } else if e.is_file && spec_is_video_name(e.name@) {
            "video"@
        } else if e.is_dir {
            match first_match(sub_views(e), |n: Seq<char>| !spec_is_hidden(n)) {
                Some(k) => if spec_is_book_name(sub_views(e)[k]) {
                    "book"@
                } else {
                    "comic"@
                },
                None => spec_library_type(entries.drop_first()),
            }
        } else {
            spec_library_type(entries.drop_first())
        }
    }
}

/// Detect a library's kind from its root entries.
#[verifier::loop_isolation(false)]
pub fn get_library_type(entries: &Vec<EntryProbe>) -> (r: String)
    ensures
        r@ == spec_library_type(entries@),
{
    let n = entries.len();
    let mut i: usize = 0;
    proof {
        assert(entries@.skip(0) =~= entries@);
    }
    while i < n
        invariant
            i <= n,
            spec_library_type(entries@) == spec_library_type(entries@.skip(i as int)),
        decreases n - i,
    {
        proof {
            assert(entries@.skip(i as int)[0] == entries@[i as int]);
            assert(entries@.skip(i as int).drop_first() =~= entries@.skip(i + 1));
        }
        let e = &entries[i];
        if !crate::names::is_hidden(e.name.as_str()) {
            if e.is_file && crate::names::is_video_file(e.name.as_str()) {
                return "video".to_owned();
            }
            if e.is_dir {
                let m = e.sub_names.len();
                let mut j: usize = 0;
                while j < m
                    invariant
                        j <= m,
                        m == e.sub_names@.len(),
                        forall|w: int| 0 <= w < j ==> spec_is_hidden(
                            #[trigger] sub_views(entries@[i as int])[w],
                        ),
                    decreases m - j,
                {
                    proof {
                        assert(sub_views(entries@[i as int])[j as int]
                            == e.sub_names@[j as int]@);
                    }
                    if !crate::names::is_hidden(e.sub_names[j].as_str()) {
                        proof {
                            lemma_first_match(
                                sub_views(entries@[i as int]),
                                |nm: Seq<char>| !spec_is_hidden(nm),
                            );
                        }
                        if crate::names::is_book_file(e.sub_names[j].as_str()) {
                            return "book".to_owned();
                        } else {
                            return "comic".to_owned();
                        }
                    }
                    j = j + 1;
                }
                proof {
                    lemma_first_match(
                        sub_views(entries@[i as int]),
                        |nm: Seq<char>| !spec_is_hidden(nm),
                    );
                }
            }
        }
        i = i + 1;
    }
    proof {
        assert(entries@.skip(n as int) =~= Seq::<EntryProbe>::empty());
    }
    "comic".to_owned()
}

} // verus!
