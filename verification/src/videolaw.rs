//! What holds of the decoder whatever the stream: a vector that leads out
//! of the reference plane is never made to fit, and what fails at any depth
//! fails the picture.
use vstd::prelude::*;
use crate::motion::half_to_zero;
use crate::video::{DecodeResult, VideoModel, PICTURE_START_CODE, SLICE_LAST, SLICE_START};

verus! {

impl VideoModel {
    /// A macroblock was predicted only if all that its vector reads lies
    /// inside the luma plane.
    pub proof fn lemma_predicted_is_inside(self)
        requires
            self.predict_macroblock().1,
        ensures
            self.source_valid(self.luma_vector().0, self.luma_vector().1, 16),
    {
        if !self.source_valid(self.luma_vector().0, self.luma_vector().1, 16) {
            self.lemma_prediction_out_of_plane();
        }
    }

    /// A macroblock that is not intra, and whose prediction fails, fails.
    pub proof fn lemma_macroblock_fails_with_its_prediction(self)
        requires
            self.macroblock_head().1,
            self.macroblock_head().0.rt.macroblock_intra == 0,
            !self.macroblock_head().0.predict_macroblock().1,
        ensures
            !self.decode_macroblock_body().1,
            self.decode_macroblock_body().0 == self.macroblock_head().0.predict_macroblock().0,
    {
    }

    /// A macroblock that fails from its type on fails.
    pub proof fn lemma_macroblock_fails_with_its_body(self, slice_begin: bool)
        requires
            self.place_macroblock(slice_begin).1,
            !self.place_macroblock(slice_begin).0.decode_macroblock_body().1,
        ensures
            !self.decode_macroblock(slice_begin).1,
            self.decode_macroblock(slice_begin).0 == self.place_macroblock(
                slice_begin,
            ).0.decode_macroblock_body().0,
    {
    }

    /// A slice whose next macroblock fails fails.
    pub proof fn lemma_macroblocks_fail_with_the_next(self, slice_begin: bool)
        requires
            !self.decode_macroblock(slice_begin).1,
        ensures
            !self.decode_macroblocks(slice_begin).1,
            self.decode_macroblocks(slice_begin).0 == self.decode_macroblock(slice_begin).0,
    {
    }

    /// A slice of which a later macroblock fails fails.
    pub proof fn lemma_macroblocks_fail_with_a_later(self, slice_begin: bool)
        requires
            self.decode_macroblock(slice_begin).1,
            self.decode_macroblock(slice_begin).0.rt.macroblock_address < self.decode_macroblock(
                slice_begin,
            ).0.info.mb_size - 1,
            !self.decode_macroblock(slice_begin).0.ring.prefix_at(0),
            !self.decode_macroblock(slice_begin).0.decode_macroblocks(false).1,
        ensures
            !self.decode_macroblocks(slice_begin).1,
    {
    }

    /// A slice whose macroblocks fail fails.
    pub proof fn lemma_slice_fails_with_its_macroblocks(self, code: int)
        requires
            !self.slice_start(code).decode_macroblocks(true).1,
        ensures
            !self.decode_slice(code).1,
            self.decode_slice(code).0 == self.slice_start(code).decode_macroblocks(true).0,
    {
        reveal(VideoModel::decode_slice);
    }

    /// The slices of a picture fail where the first of them fails.
    pub proof fn lemma_slices_fail_with_the_first(self, code: int)
        requires
            SLICE_START <= code <= SLICE_LAST,
            !self.decode_slice(code).1,
        ensures
            !self.decode_slices(code).1,
            self.decode_slices(code).0 == self.decode_slice(code).0,
    {
    }

    /// The slices of a picture fail where a later one of them fails, or
    /// where no start code follows a slice.
    pub proof fn lemma_slices_fail_with_a_later(self, code: int)
        requires
            SLICE_START <= code <= SLICE_LAST,
            self.decode_slice(code).1,
            match self.decode_slice(code).0.ring.find_start() {
                None => true,
                Some(r1) => !(VideoModel {
                    ring: r1.read(8).1,
                    ..self.decode_slice(code).0
                }).decode_slices(r1.read(8).0).1,
            },
        ensures
            !self.decode_slices(code).1,
    {
    }

    /// A picture whose slices fail is an error.
    pub proof fn lemma_picture_fails_with_its_slices(self)
        requires
            self.picture_start().1,
            !self.picture_start().0.decode_slices(SLICE_START as int).1,
        ensures
            self.decode_picture().1 == DecodeResult::InternalError,
            self.decode_picture().0 == self.picture_start().0.decode_slices(SLICE_START as int).0,
    {
    }

    /// Where the sequence header was read and the buffer holds a picture,
    /// `decode` returns what decoding the picture gives.
    pub proof fn lemma_decode_is_the_picture(self)
        requires
            self.info._parsed_,
            self.ring.include_two_code(PICTURE_START_CODE),
        ensures
            self.decode() == self.decode_picture(),
    {
    }

    /// Where the first macroblock of a picture is not intra and its vector
    /// leads out of the luma plane of the forward frame, `decode` returns an
    /// error and has written no pixel: the vector is not made to fit.
    pub proof fn lemma_vector_out_of_plane_is_fatal(self)
        requires
            self.info._parsed_,
            self.ring.include_two_code(PICTURE_START_CODE),
            self.picture_start().1,
            self.first_macroblock().place_macroblock(true).1,
            self.first_macroblock().place_macroblock(true).0.macroblock_head().1,
            self.first_vector_state().rt.macroblock_intra == 0,
            !self.first_vector_state().source_valid(
                self.first_vector_state().luma_vector().0,
                self.first_vector_state().luma_vector().1,
                16,
            ),
        ensures
            self.decode().1 == DecodeResult::InternalError,
            self.decode().0.arena == self.arena,
    {
        let at_slice = self.picture_start().0;
        let first = self.first_macroblock();
        let placed = first.place_macroblock(true).0;
        let head = self.first_vector_state();
        head.lemma_prediction_out_of_plane();
        placed.lemma_macroblock_fails_with_its_prediction();
        first.lemma_macroblock_fails_with_its_body(true);
        first.lemma_macroblocks_fail_with_the_next(true);
        at_slice.lemma_slice_fails_with_its_macroblocks(SLICE_START as int);
        at_slice.lemma_slices_fail_with_the_first(SLICE_START as int);
        self.lemma_picture_fails_with_its_slices();
        self.lemma_decode_is_the_picture();
        assert(self.decode().0 == head);
        self.lemma_no_pixel_before_the_first_prediction();
    }

    /// The state at the start of the first slice of the next picture.
    pub open spec fn first_macroblock(self) -> VideoModel {
        self.picture_start().0.slice_start(SLICE_START as int)
    }

    /// The state in which the first macroblock of the next picture is
    /// predicted: its vector is read.
    pub open spec fn first_vector_state(self) -> VideoModel {
        self.first_macroblock().place_macroblock(true).0.macroblock_head().0
    }

    /// Up to the first prediction of a picture no pixel is written.
    pub proof fn lemma_no_pixel_before_the_first_prediction(self)
        ensures
            self.picture_start().0.arena == self.arena,
            self.first_macroblock().arena == self.arena,
            self.first_macroblock().place_macroblock(true).0.arena == self.arena,
            self.first_vector_state().arena == self.arena,
    {
        reveal(VideoModel::picture_start);
        reveal(VideoModel::place_macroblock);
        reveal(VideoModel::macroblock_head);
        reveal(VideoModel::decode_motion_vectors);
    }

    /// The vector that chroma is predicted with is half the luma vector,
    /// rounded towards 0; it is not made to fit either.
    pub proof fn lemma_chroma_out_of_plane(self)
        requires
            self.source_valid(self.luma_vector().0, self.luma_vector().1, 16),
            !self.process_macroblock(0, 0, self.luma_vector().0, self.luma_vector().1, 16).0
                .source_valid(
                half_to_zero(self.luma_vector().0),
                half_to_zero(self.luma_vector().1),
                8,
            ),
        ensures
            !self.predict_macroblock().1,
    {
        reveal(VideoModel::predict_macroblock);
        reveal(VideoModel::process_macroblock);
    }
}

} // verus!
